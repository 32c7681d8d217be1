//! Receiver's loss list: the record of sequence numbers believed lost,
//! driving the retransmission-request (NAK) lifecycle.
//!
//! Each entry carries the missing sequence number, the time it was last fed
//! back in a NAK, and the count `k` of times it has been fed back.  Entries
//! are kept in increasing wraparound-aware sequence order and each sequence
//! number appears at most once.  An entry is created when a data-packet
//! arrival reveals a gap, refreshed with an exponentially backed-off retry
//! interval each time it is selected for a NAK, and removed when the missing
//! packet finally arrives or a drop request abandons its range.

use vstd::prelude::*;

use crate::seq_num::{
    lemma_seq_add_diff, lemma_seq_diff_additive, lemma_seq_diff_antisymmetric, seq_add,
    seq_add_spec, seq_diff, seq_diff_spec, seq_valid, SEQ_HALF,
};
use crate::timer::{period_valid, time_valid, PERIOD_MAX, TIME_MAX};

verus! {

/// Upper bound on the number of loss-list entries; a gap whose insertion
/// would grow the list past this bound is rejected whole, so a
/// pathologically lossy link degrades feedback instead of exhausting
/// memory.
pub const LOSS_LIST_CAPACITY: usize = 0x10000;

/// Retry counts beyond this exponent no longer grow the backoff interval.
pub const BACKOFF_EXPONENT_CAP: i32 = 16;

/// One sequence number believed lost.
#[derive(Clone, Copy, Debug, PartialEq, Eq, Structural)]
pub struct LossEntry {
    /// The missing sequence number.
    pub seq_num: i32,
    /// The last time this entry was fed back in a NAK (or its creation
    /// time, while it has never been fed back).
    pub feedback_time: i64,
    /// The number of times this entry has been fed back in a NAK.
    pub k: i32,
}

/// Ordered collection of detected-missing sequence numbers.
pub struct LossList {
    /// Entries in increasing wraparound-aware sequence order.
    pub entries: Vec<LossEntry>,
}

/// Every entry's fields are valid: a sequence number in range, a clock
/// reading as feedback time, a non-negative feedback count.
pub open spec fn entries_fields_ok(s: Seq<LossEntry>) -> bool {
    forall|i: int|
        0 <= i < s.len() ==> seq_valid(#[trigger] s[i].seq_num) && 0 <= s[i].feedback_time
            <= TIME_MAX && 0 <= s[i].k
}

/// Strict wraparound-aware ordering: every later entry lies a positive
/// circular distance after every earlier one, which also makes all
/// sequence numbers distinct.
pub open spec fn entries_sorted(s: Seq<LossEntry>) -> bool {
    forall|i: int, j: int|
        0 <= i < j < s.len() ==> #[trigger] seq_diff_spec(
            s[j].seq_num as int,
            s[i].seq_num as int,
        ) > 0
}

/// Field validity and strict ordering together.
pub open spec fn entries_wf(s: Seq<LossEntry>) -> bool {
    entries_fields_ok(s) && entries_sorted(s)
}

/// Whether some entry of `s` carries the sequence number `x`.
pub open spec fn has_seq(s: Seq<LossEntry>, x: i32) -> bool {
    exists|i: int| 0 <= i < s.len() && s[i].seq_num == x
}

/// Whether `x` lies in the inclusive wraparound-aware range `[first, last]`.
pub open spec fn in_span(x: i32, first: i32, last: i32) -> bool {
    seq_diff_spec(x as int, first as int) >= 0 && seq_diff_spec(last as int, x as int) >= 0
}

/// `s` with every entry whose sequence number lies in `[first, last]`
/// dropped, order otherwise preserved.
pub open spec fn drop_span_spec(s: Seq<LossEntry>, first: i32, last: i32) -> Seq<LossEntry>
    decreases s.len(),
{
    if s.len() == 0 {
        Seq::empty()
    } else {
        let pre = drop_span_spec(s.drop_last(), first, last);
        if in_span(s.last().seq_num, first, last) {
            pre
        } else {
            pre.push(s.last())
        }
    }
}

/// Number of sequence numbers in the gap from `expected` up to (but not
/// including) `received`; positive exactly when `received` lies ahead of
/// `expected`.
pub open spec fn gap_count(expected: i32, received: i32) -> int {
    seq_diff_spec(received as int, expected as int)
}

/// The `n` fresh entries a gap from `expected` creates at time `now`: one
/// per missing sequence number, never yet fed back.
pub open spec fn gap_entries(expected: i32, n: int, now: i64) -> Seq<LossEntry> {
    Seq::new(
        n as nat,
        |j: int|
            LossEntry {
                seq_num: seq_add_spec(expected as int, j) as i32,
                feedback_time: now,
                k: 0,
            },
    )
}

/// Whether the gap from `expected` up to `received` can be appended to the
/// list `s`: the gap must be non-empty, fit under the capacity bound, start
/// strictly after the current tail, and stay within half the sequence space
/// of the current head, so that the ordering invariant survives.  A gap
/// that fails this is a protocol anomaly and is rejected whole.
pub open spec fn can_append(s: Seq<LossEntry>, expected: i32, received: i32) -> bool {
    let n = gap_count(expected, received);
    n > 0 && s.len() + n <= LOSS_LIST_CAPACITY && (s.len() == 0 || {
        let d0 = seq_diff_spec(expected as int, s[0].seq_num as int);
        let dt = seq_diff_spec(s[s.len() - 1].seq_num as int, s[0].seq_num as int);
        d0 > dt && d0 + n <= SEQ_HALF
    })
}

/// `2` to the power `max(k, 0)`.
pub open spec fn pow2(k: int) -> int
    decreases k,
{
    if k <= 0 {
        1
    } else {
        2 * pow2(k - 1)
    }
}

/// The backoff exponent for a retry count: the count itself, capped.
pub open spec fn backoff_exponent(k: i32) -> int {
    if k > BACKOFF_EXPONENT_CAP {
        BACKOFF_EXPONENT_CAP as int
    } else if k < 0 {
        0
    } else {
        k as int
    }
}

/// Retry interval for an entry fed back `k` times already: the minimum
/// interval doubled per feedback, capped.
pub open spec fn backoff_interval_spec(min_interval: i64, k: i32) -> int {
    min_interval * pow2(backoff_exponent(k))
}

/// Whether an entry is due for another NAK at `now`: its backed-off retry
/// interval has elapsed since its last feedback.
pub open spec fn is_due(e: LossEntry, now: i64, min_interval: i64) -> bool {
    now - e.feedback_time >= backoff_interval_spec(min_interval, e.k)
}

/// An entry as selection for feedback leaves it: fed back once more (the
/// count saturates rather than overflows), last feedback now.
pub open spec fn refreshed(e: LossEntry, now: i64) -> LossEntry {
    LossEntry {
        seq_num: e.seq_num,
        feedback_time: now,
        k: if e.k < i32::MAX {
            (e.k + 1) as i32
        } else {
            e.k
        },
    }
}

/// What a list's entries become when the due ones are selected for
/// feedback: each due entry refreshed in place, the rest untouched.
pub open spec fn refresh_due_spec(s: Seq<LossEntry>, now: i64, min_interval: i64) -> Seq<
    LossEntry,
> {
    Seq::new(
        s.len(),
        |i: int|
            if is_due(s[i], now, min_interval) {
                refreshed(s[i], now)
            } else {
                s[i]
            },
    )
}

/// The sequence numbers of a run of entries, in order; the loss information
/// a NAK carries.
pub open spec fn seqs_of(s: Seq<LossEntry>) -> Seq<i32> {
    s.map_values(|e: LossEntry| e.seq_num)
}

/// The entries of `s` due for feedback at `now`, in order, each already
/// refreshed by its selection.
pub open spec fn select_due_spec(s: Seq<LossEntry>, now: i64, min_interval: i64) -> Seq<LossEntry>
    decreases s.len(),
{
    if s.len() == 0 {
        Seq::empty()
    } else {
        let pre = select_due_spec(s.drop_last(), now, min_interval);
        if is_due(s.last(), now, min_interval) {
            pre.push(refreshed(s.last(), now))
        } else {
            pre
        }
    }
}

/// `pow2` is at least `1`.
pub proof fn lemma_pow2_pos(k: int)
    ensures
        pow2(k) >= 1,
    decreases
            if k > 0 {
                k
            } else {
                0
            },
{
    if k > 0 {
        lemma_pow2_pos(k - 1);
    }
}

/// `pow2` is monotone.
pub proof fn lemma_pow2_monotone(a: int, b: int)
    requires
        a <= b,
    ensures
        pow2(a) <= pow2(b),
    decreases b - a,
{
    if a < b {
        lemma_pow2_monotone(a, b - 1);
        lemma_pow2_pos(b - 1);
    }
}

/// A sorted run is, position by position, a strictly increasing ladder of
/// circular offsets from its head.
proof fn lemma_pairwise_to_offsets(s: Seq<LossEntry>)
    requires
        s.len() > 0,
        entries_wf(s),
    ensures
        forall|i: int|
            0 <= i < s.len() ==> 0 <= #[trigger] seq_diff_spec(
                s[i].seq_num as int,
                s[0].seq_num as int,
            ) < SEQ_HALF,
        forall|i1: int, i2: int|
            0 <= i1 < i2 < s.len() ==> #[trigger] seq_diff_spec(
                s[i1].seq_num as int,
                s[0].seq_num as int,
            ) < #[trigger] seq_diff_spec(s[i2].seq_num as int, s[0].seq_num as int),
{
    let anchor = s[0].seq_num as int;
    assert forall|i: int|
        0 <= i < s.len() implies 0 <= #[trigger] seq_diff_spec(s[i].seq_num as int, anchor)
        < SEQ_HALF by {
        if i > 0 {
            assert(seq_diff_spec(s[i].seq_num as int, s[0].seq_num as int) > 0);
        }
    }
    assert forall|i1: int, i2: int|
        0 <= i1 < i2 < s.len() implies #[trigger] seq_diff_spec(s[i1].seq_num as int, anchor)
        < #[trigger] seq_diff_spec(s[i2].seq_num as int, anchor) by {
        assert(seq_diff_spec(s[i2].seq_num as int, s[i1].seq_num as int) > 0);
        if i1 > 0 {
            assert(seq_diff_spec(s[i1].seq_num as int, s[0].seq_num as int) > 0);
        }
        lemma_seq_diff_antisymmetric(s[i1].seq_num as int, anchor);
        lemma_seq_diff_additive(s[i2].seq_num as int, anchor, s[i1].seq_num as int);
    }
}

/// A strictly increasing ladder of circular offsets from a common anchor is
/// a sorted run.
proof fn lemma_offsets_to_pairwise(s: Seq<LossEntry>, anchor: i32)
    requires
        seq_valid(anchor),
        entries_fields_ok(s),
        forall|i: int|
            0 <= i < s.len() ==> 0 <= #[trigger] seq_diff_spec(s[i].seq_num as int, anchor as int)
                < SEQ_HALF,
        forall|i1: int, i2: int|
            0 <= i1 < i2 < s.len() ==> #[trigger] seq_diff_spec(s[i1].seq_num as int, anchor as int)
                < #[trigger] seq_diff_spec(s[i2].seq_num as int, anchor as int),
    ensures
        entries_wf(s),
{
    assert(entries_fields_ok(s)) by {
        assert forall|i: int|
            0 <= i < s.len() implies seq_valid(#[trigger] s[i].seq_num) && 0
            <= s[i].feedback_time <= TIME_MAX && 0 <= s[i].k by {
            assert(seq_valid(s[i].seq_num) && 0 <= s[i].feedback_time <= TIME_MAX && 0
                <= s[i].k);
        }
    }
    assert(entries_sorted(s)) by {
        assert forall|i: int, j: int|
            0 <= i < j < s.len() implies #[trigger] seq_diff_spec(
            s[j].seq_num as int,
            s[i].seq_num as int,
        ) > 0 by {
            assert(0 <= seq_diff_spec(s[i].seq_num as int, anchor as int) < SEQ_HALF);
            assert(seq_diff_spec(s[i].seq_num as int, anchor as int) < seq_diff_spec(
                s[j].seq_num as int,
                anchor as int,
            ));
            lemma_seq_diff_antisymmetric(s[i].seq_num as int, anchor as int);
            lemma_seq_diff_additive(s[j].seq_num as int, anchor as int, s[i].seq_num as int);
        }
    }
}

/// Dropping a span keeps the list well formed, keeps only entries of the
/// original, and holds exactly the sequence numbers of the original that
/// lie outside the span.
proof fn lemma_drop_span_wf(s: Seq<LossEntry>, first: i32, last: i32)
    requires
        entries_wf(s),
    ensures
        entries_wf(drop_span_spec(s, first, last)),
        forall|e: LossEntry| drop_span_spec(s, first, last).contains(e) ==> s.contains(e),
        forall|y: i32|
            has_seq(drop_span_spec(s, first, last), y) <==> (has_seq(s, y) && !in_span(
                y,
                first,
                last,
            )),
    decreases s.len(),
{
    let r = drop_span_spec(s, first, last);
    if s.len() == 0 {
        assert forall|y: i32| has_seq(r, y) <==> (has_seq(s, y) && !in_span(y, first, last)) by {
            assert(!has_seq(r, y));
            assert(!has_seq(s, y));
        }
    } else {
        let s0 = s.drop_last();
        assert(entries_wf(s0)) by {
            assert forall|i: int|
                0 <= i < s0.len() implies seq_valid(#[trigger] s0[i].seq_num) && 0
                <= s0[i].feedback_time <= TIME_MAX && 0 <= s0[i].k by {
                assert(s0[i] == s[i]);
                assert(seq_valid(s[i].seq_num));
            }
            assert forall|i: int, j: int|
                0 <= i < j < s0.len() implies #[trigger] seq_diff_spec(
                s0[j].seq_num as int,
                s0[i].seq_num as int,
            ) > 0 by {
                assert(s0[i] == s[i] && s0[j] == s[j]);
                assert(seq_diff_spec(s[j].seq_num as int, s[i].seq_num as int) > 0);
            }
        }
        lemma_drop_span_wf(s0, first, last);
        let pre = drop_span_spec(s0, first, last);
        if in_span(s.last().seq_num, first, last) {
            assert(r == pre);
            assert forall|e: LossEntry| r.contains(e) implies s.contains(e) by {
                assert(pre.contains(e));
                assert(s0.contains(e));
                let t = choose|t: int| 0 <= t < s0.len() && s0[t] == e;
                assert(s0[t] == s[t]);
                assert(s[t] == e);
            }
            assert forall|y: i32| has_seq(r, y) implies (has_seq(s, y) && !in_span(
                y,
                first,
                last,
            )) by {
                assert(has_seq(s0, y));
                assert(!in_span(y, first, last));
                let i = choose|i: int| 0 <= i < s0.len() && s0[i].seq_num == y;
                assert(s[i] == s0[i]);
            }
            assert forall|y: i32| has_seq(s, y) && !in_span(y, first, last) implies has_seq(
                r,
                y,
            ) by {
                let i = choose|i: int| 0 <= i < s.len() && s[i].seq_num == y;
                if i < s0.len() {
                    assert(s0[i] == s[i]);
                    assert(has_seq(s0, y));
                } else {
                    assert(s[i] == s.last());
                    assert(in_span(y, first, last));
                }
            }
        } else {
            assert(r == pre.push(s.last()));
            // every element of pre is an element of s0, hence of s, at an
            // earlier index than the kept last entry
            assert(entries_wf(r)) by {
                assert forall|i: int, j: int|
                    0 <= i < j < r.len() implies #[trigger] seq_diff_spec(
                    r[j].seq_num as int,
                    r[i].seq_num as int,
                ) > 0 by {
                    if j < pre.len() {
                        assert(r[i] == pre[i] && r[j] == pre[j]);
                    } else {
                        assert(r[j] == s.last());
                        assert(pre.contains(pre[i]));
                        assert(s0.contains(pre[i]));
                        let t = choose|t: int| 0 <= t < s0.len() && s0[t] == pre[i];
                        assert(s0[t] == s[t]);
                        assert(s[t] == pre[i]);
                        assert(seq_diff_spec(
                            s[s.len() - 1].seq_num as int,
                            s[t].seq_num as int,
                        ) > 0);
                    }
                }
                assert forall|i: int|
                    0 <= i < r.len() implies seq_valid(#[trigger] r[i].seq_num) && 0
                    <= r[i].feedback_time <= TIME_MAX && 0 <= r[i].k by {
                    if i < pre.len() {
                        assert(r[i] == pre[i]);
                        assert(pre.contains(pre[i]));
                        assert(s0.contains(pre[i]));
                        let t = choose|t: int| 0 <= t < s0.len() && s0[t] == pre[i];
                        assert(s0[t] == s[t]);
                        assert(seq_valid(s[t].seq_num));
                    } else {
                        assert(r[i] == s.last());
                        assert(seq_valid(s[s.len() - 1].seq_num));
                    }
                }
            }
            assert forall|e: LossEntry| r.contains(e) implies s.contains(e) by {
                let i = choose|i: int| 0 <= i < r.len() && r[i] == e;
                if i < pre.len() {
                    assert(r[i] == pre[i]);
                    assert(pre.contains(e));
                    assert(s0.contains(e));
                    let t = choose|t: int| 0 <= t < s0.len() && s0[t] == e;
                    assert(s0[t] == s[t]);
                    assert(s[t] == e);
                } else {
                    assert(s[s.len() - 1] == e);
                }
            }
            assert forall|y: i32| has_seq(r, y) implies (has_seq(s, y) && !in_span(
                y,
                first,
                last,
            )) by {
                let i = choose|i: int| 0 <= i < r.len() && r[i].seq_num == y;
                if i < pre.len() {
                    assert(r[i] == pre[i]);
                    assert(has_seq(pre, y));
                    assert(has_seq(s0, y));
                    assert(!in_span(y, first, last));
                    let t = choose|t: int| 0 <= t < s0.len() && s0[t].seq_num == y;
                    assert(s0[t] == s[t]);
                    assert(s[t].seq_num == y);
                } else {
                    assert(r[i] == s.last());
                    assert(s[s.len() - 1].seq_num == y);
                }
            }
            assert forall|y: i32| has_seq(s, y) && !in_span(y, first, last) implies has_seq(
                r,
                y,
            ) by {
                let i = choose|i: int| 0 <= i < s.len() && s[i].seq_num == y;
                if i < s0.len() {
                    assert(s0[i] == s[i]);
                    assert(has_seq(s0, y));
                    assert(has_seq(pre, y));
                    let t = choose|t: int| 0 <= t < pre.len() && pre[t].seq_num == y;
                    assert(r[t] == pre[t]);
                    assert(r[t].seq_num == y);
                } else {
                    assert(s[i] == s.last());
                    assert(r[r.len() - 1].seq_num == y);
                }
            }
        }
    }
}

/// The inclusive span from a number to itself holds that number alone.
pub proof fn lemma_span_singleton(x: i32, y: i32)
    requires
        seq_valid(x),
        seq_valid(y),
    ensures
        in_span(y, x, x) <==> y == x,
{
    if y != x {
        if seq_diff_spec(y as int, x as int) != -SEQ_HALF {
            lemma_seq_diff_antisymmetric(y as int, x as int);
        }
    }
}

/// Retry interval for an entry fed back `k` times: the minimum interval,
/// doubled per feedback, with the doubling capped.
pub fn backoff_interval(min_interval: i64, k: i32) -> (r: i64)
    requires
        period_valid(min_interval),
        0 <= k,
    ensures
        r as int == backoff_interval_spec(min_interval, k),
        min_interval <= r,
        r <= min_interval * 0x10000,
{
    let e: i32 = if k > BACKOFF_EXPONENT_CAP {
        BACKOFF_EXPONENT_CAP
    } else {
        k
    };
    let mut r: i64 = min_interval;
    let mut j: i32 = 0;
    while j < e
        invariant
            0 <= j <= e <= BACKOFF_EXPONENT_CAP,
            period_valid(min_interval),
            r == min_interval * pow2(j as int),
            min_interval <= r <= min_interval * 0x10000,
        decreases e - j,
    {
        proof {
            lemma_pow2_monotone(j as int + 1, 16);
            assert(pow2(16) == 0x10000) by {
                reveal_with_fuel(pow2, 18);
            }
            lemma_pow2_pos(j as int);
            assert(min_interval * (2 * pow2(j as int)) == 2 * (min_interval * pow2(j as int)))
                by (nonlinear_arith);
            assert(min_interval * pow2(j as int + 1) <= min_interval * 0x10000)
                by (nonlinear_arith)
                requires
                    pow2(j as int + 1) <= 0x10000,
                    min_interval >= 1,
            ;
            assert(min_interval * 0x10000 <= PERIOD_MAX * 0x10000) by (nonlinear_arith)
                requires
                    1 <= min_interval <= PERIOD_MAX,
            ;
        }
        r = r * 2;
        j = j + 1;
    }
    proof {
        lemma_pow2_pos(e as int);
        assert(min_interval * 1 == min_interval) by (nonlinear_arith);
    }
    r
}

impl LossList {
    /// Structural invariant of the list.
    pub open spec fn wf(self) -> bool {
        entries_wf(self.entries@) && self.entries@.len() <= LOSS_LIST_CAPACITY
    }

    /// Create an empty loss list.
    pub fn new() -> (r: LossList)
        ensures
            r.wf(),
            r.entries@ == Seq::<LossEntry>::empty(),
    {
        LossList { entries: Vec::new() }
    }

    /// Number of entries.
    pub fn len(&self) -> (r: usize)
        ensures
            r == self.entries@.len(),
    {
        self.entries.len()
    }

    /// Whether the sequence number `x` is recorded as lost.
    pub fn contains(&self, x: i32) -> (r: bool)
        ensures
            r == has_seq(self.entries@, x),
    {
        let mut i: usize = 0;
        while i < self.entries.len()
            invariant
                i <= self.entries@.len(),
                forall|t: int| 0 <= t < i ==> self.entries@[t].seq_num != x,
            decreases self.entries@.len() - i,
        {
            if self.entries[i].seq_num == x {
                return true;
            }
            i = i + 1;
        }
        false
    }

    /// The recorded sequence numbers, in order.
    pub fn seq_nums(&self) -> (r: Vec<i32>)
        ensures
            r@.len() == self.entries@.len(),
            forall|i: int| 0 <= i < r@.len() ==> r@[i] == self.entries@[i].seq_num,
    {
        let mut r: Vec<i32> = Vec::new();
        let mut i: usize = 0;
        while i < self.entries.len()
            invariant
                i <= self.entries@.len(),
                r@.len() == i,
                forall|t: int| 0 <= t < i ==> r@[t] == self.entries@[t].seq_num,
            decreases self.entries@.len() - i,
        {
            r.push(self.entries[i].seq_num);
            i = i + 1;
        }
        r
    }

    /// Record the gap revealed by an arrival: one fresh entry for every
    /// sequence number from `expected` up to but not including `received`,
    /// appended in order.  A gap that is empty, would overflow the capacity
    /// bound, or does not lie strictly beyond the current tail within half
    /// the sequence space is a protocol anomaly and is rejected whole,
    /// leaving the list unchanged.
    pub fn record_gap(&mut self, expected: i32, received: i32, now: i64)
        requires
            old(self).wf(),
            seq_valid(expected),
            seq_valid(received),
            time_valid(now),
        ensures
            final(self).wf(),
            can_append(old(self).entries@, expected, received) ==> final(self).entries@ == old(
                self,
            ).entries@ + gap_entries(expected, gap_count(expected, received), now),
            !can_append(old(self).entries@, expected, received) ==> final(self).entries@ == old(
                self,
            ).entries@,
    {
        let n = seq_diff(received, expected);
        if n <= 0 {
            return ;
        }
        let len = self.entries.len();
        if len as i64 + n as i64 > LOSS_LIST_CAPACITY as i64 {
            return ;
        }
        let ghost anchor: i32 = if len > 0 {
            self.entries@[0].seq_num
        } else {
            expected
        };
        let ghost d0g: int = if len > 0 {
            seq_diff_spec(expected as int, anchor as int)
        } else {
            0
        };
        let ghost dtg: int = if len > 0 {
            seq_diff_spec(self.entries@[len - 1].seq_num as int, anchor as int)
        } else {
            -1
        };
        if len > 0 {
            let head = self.entries[0].seq_num;
            let tail = self.entries[len - 1].seq_num;
            let dd0 = seq_diff(expected, head);
            let ddt = seq_diff(tail, head);
            if !(dd0 > ddt && dd0 as i64 + n as i64 <= SEQ_HALF) {
                return ;
            }
            proof {
                lemma_pairwise_to_offsets(self.entries@);
                assert(dtg >= 0);
                assert forall|i: int|
                    0 <= i < len implies 0 <= #[trigger] seq_diff_spec(
                    self.entries@[i].seq_num as int,
                    anchor as int,
                ) <= dtg by {
                    if i < len - 1 {
                        assert(seq_diff_spec(self.entries@[i].seq_num as int, anchor as int)
                            < seq_diff_spec(
                            self.entries@[len - 1].seq_num as int,
                            anchor as int,
                        ));
                    }
                }
            }
        }
        proof {
            assert(gap_entries(expected, 0, now) =~= Seq::<LossEntry>::empty());
            assert(self.entries@ =~= old(self).entries@ + gap_entries(expected, 0, now));
        }
        let mut j: i32 = 0;
        while j < n
            invariant
                0 <= j <= n,
                0 < n < SEQ_HALF,
                seq_valid(expected),
                seq_valid(received),
                seq_valid(anchor),
                time_valid(now),
                n == gap_count(expected, received),
                len + n <= LOSS_LIST_CAPACITY,
                len == old(self).entries@.len(),
                self.entries@.len() == len + j,
                self.entries@ == old(self).entries@ + gap_entries(expected, j as int, now),
                d0g > dtg,
                d0g >= 0,
                d0g + n <= SEQ_HALF,
                anchor == (if len > 0 {
                    old(self).entries@[0].seq_num
                } else {
                    expected
                }),
                d0g == (if len > 0 {
                    seq_diff_spec(expected as int, anchor as int)
                } else {
                    0
                }),
                len == 0 ==> anchor == expected,
                forall|i: int|
                    0 <= i < len ==> seq_valid(#[trigger] self.entries@[i].seq_num) && 0
                        <= self.entries@[i].feedback_time <= TIME_MAX && 0 <= self.entries@[i].k,
                forall|i: int|
                    0 <= i < len ==> 0 <= #[trigger] seq_diff_spec(
                        self.entries@[i].seq_num as int,
                        anchor as int,
                    ) <= dtg,
                forall|i1: int, i2: int|
                    0 <= i1 < i2 < len ==> #[trigger] seq_diff_spec(
                        self.entries@[i1].seq_num as int,
                        anchor as int,
                    ) < #[trigger] seq_diff_spec(self.entries@[i2].seq_num as int, anchor as int),
                forall|i: int|
                    len <= i < len + j ==> #[trigger] seq_diff_spec(
                        self.entries@[i].seq_num as int,
                        anchor as int,
                    ) == d0g + (i - len),
                forall|i: int|
                    len <= i < len + j ==> seq_valid(#[trigger] self.entries@[i].seq_num)
                        && self.entries@[i].feedback_time == now && self.entries@[i].k == 0,
            decreases n - j,
        {
            let s = seq_add(expected, j);
            proof {
                assert(seq_diff_spec(expected as int, anchor as int) == d0g);
                lemma_seq_add_diff(expected as int, j as int, anchor as int);
            }
            self.entries.push(LossEntry { seq_num: s, feedback_time: now, k: 0 });
            proof {
                assert(gap_entries(expected, j as int + 1, now) =~= gap_entries(
                    expected,
                    j as int,
                    now,
                ).push(LossEntry { seq_num: s, feedback_time: now, k: 0 }));
            }
            j = j + 1;
        }
        proof {
            lemma_offsets_to_pairwise(self.entries@, anchor);
        }
    }

    /// Remove every entry whose sequence number lies in the inclusive
    /// wraparound-aware range `[first, last]`; entries outside the range
    /// are untouched.  A range covering nothing present is a no-op.
    pub fn remove_range(&mut self, first: i32, last: i32)
        requires
            old(self).wf(),
            seq_valid(first),
            seq_valid(last),
        ensures
            final(self).wf(),
            final(self).entries@ == drop_span_spec(old(self).entries@, first, last),
            forall|y: i32|
                has_seq(final(self).entries@, y) <==> (has_seq(old(self).entries@, y) && !in_span(
                    y,
                    first,
                    last,
                )),
    {
        let mut kept: Vec<LossEntry> = Vec::new();
        let mut i: usize = 0;
        while i < self.entries.len()
            invariant
                i <= self.entries@.len(),
                self.entries@ == old(self).entries@,
                old(self).wf(),
                seq_valid(first),
                seq_valid(last),
                kept@ == drop_span_spec(self.entries@.take(i as int), first, last),
            decreases self.entries@.len() - i,
        {
            let e = self.entries[i];
            proof {
                assert(e == old(self).entries@[i as int]);
                assert(seq_valid(old(self).entries@[i as int].seq_num));
            }
            let din = seq_diff(e.seq_num, first);
            let dout = seq_diff(last, e.seq_num);
            proof {
                assert(self.entries@.take(i as int + 1).drop_last() =~= self.entries@.take(
                    i as int,
                ));
                assert(self.entries@.take(i as int + 1).last() == self.entries@[i as int]);
            }
            if !(din >= 0 && dout >= 0) {
                kept.push(e);
            }
            i = i + 1;
        }
        proof {
            assert(self.entries@.take(self.entries@.len() as int) =~= self.entries@);
            lemma_drop_span_wf(old(self).entries@, first, last);
        }
        self.entries = kept;
        proof {
            assert(drop_span_spec(old(self).entries@, first, last).len() <= old(
                self,
            ).entries@.len()) by {
                lemma_drop_span_len(old(self).entries@, first, last);
            }
        }
    }

    /// Remove the entry for one sequence number, if present; a number not
    /// recorded is a no-op.  Called when the missing packet finally
    /// arrives.
    pub fn remove(&mut self, x: i32)
        requires
            old(self).wf(),
            seq_valid(x),
        ensures
            final(self).wf(),
            final(self).entries@ == drop_span_spec(old(self).entries@, x, x),
            forall|y: i32|
                seq_valid(y) ==> (has_seq(final(self).entries@, y) <==> (has_seq(
                    old(self).entries@,
                    y,
                ) && y != x)),
    {
        self.remove_range(x, x);
        proof {
            assert forall|y: i32| seq_valid(y) implies (has_seq(self.entries@, y) <==> (has_seq(
                old(self).entries@,
                y,
            ) && y != x)) by {
                lemma_span_singleton(x, y);
            }
        }
    }

    /// Select the entries due for another NAK at `now`: every entry whose
    /// backed-off retry interval has elapsed since its last feedback is
    /// returned, in order, and as a side effect of its selection has its
    /// feedback count incremented and its feedback time set to `now`.
    /// Entries not yet due are untouched.
    pub fn due_for_feedback(&mut self, now: i64, min_interval: i64) -> (due: Vec<LossEntry>)
        requires
            old(self).wf(),
            time_valid(now),
            period_valid(min_interval),
        ensures
            final(self).wf(),
            final(self).entries@ == refresh_due_spec(old(self).entries@, now, min_interval),
            due@ == select_due_spec(old(self).entries@, now, min_interval),
    {
        let mut rebuilt: Vec<LossEntry> = Vec::new();
        let mut due: Vec<LossEntry> = Vec::new();
        let mut i: usize = 0;
        while i < self.entries.len()
            invariant
                i <= self.entries@.len(),
                self.entries@ == old(self).entries@,
                old(self).wf(),
                time_valid(now),
                period_valid(min_interval),
                rebuilt@.len() == i,
                forall|t: int|
                    0 <= t < i ==> rebuilt@[t] == (if is_due(
                        #[trigger] self.entries@[t],
                        now,
                        min_interval,
                    ) {
                        refreshed(self.entries@[t], now)
                    } else {
                        self.entries@[t]
                    }),
                due@ == select_due_spec(self.entries@.take(i as int), now, min_interval),
            decreases self.entries@.len() - i,
        {
            let e = self.entries[i];
            proof {
                assert(e == old(self).entries@[i as int]);
                assert(seq_valid(old(self).entries@[i as int].seq_num) && 0 <= old(
                    self,
                ).entries@[i as int].feedback_time <= TIME_MAX && 0 <= old(
                    self,
                ).entries@[i as int].k);
            }
            let iv = backoff_interval(min_interval, e.k);
            proof {
                assert(self.entries@.take(i as int + 1).drop_last() =~= self.entries@.take(
                    i as int,
                ));
                assert(self.entries@.take(i as int + 1).last() == self.entries@[i as int]);
            }
            if now - e.feedback_time >= iv {
                let r = LossEntry {
                    seq_num: e.seq_num,
                    feedback_time: now,
                    k: if e.k < i32::MAX {
                        e.k + 1
                    } else {
                        e.k
                    },
                };
                rebuilt.push(r);
                due.push(r);
            } else {
                rebuilt.push(e);
            }
            i = i + 1;
        }
        proof {
            assert(self.entries@.take(self.entries@.len() as int) =~= self.entries@);
        }
        self.entries = rebuilt;
        proof {
            assert(self.entries@ =~= refresh_due_spec(old(self).entries@, now, min_interval));
            assert forall|i: int|
                0 <= i < self.entries@.len() implies seq_valid(#[trigger] self.entries@[i].seq_num)
                && 0 <= self.entries@[i].feedback_time <= TIME_MAX && 0
                <= self.entries@[i].k by {
                assert(seq_valid(old(self).entries@[i].seq_num));
                assert(0 <= old(self).entries@[i].feedback_time <= TIME_MAX);
                assert(0 <= old(self).entries@[i].k);
            }
            assert forall|i: int, j: int|
                0 <= i < j < self.entries@.len() implies #[trigger] seq_diff_spec(
                self.entries@[j].seq_num as int,
                self.entries@[i].seq_num as int,
            ) > 0 by {
                assert(self.entries@[i].seq_num == old(self).entries@[i].seq_num);
                assert(self.entries@[j].seq_num == old(self).entries@[j].seq_num);
                assert(seq_diff_spec(
                    old(self).entries@[j].seq_num as int,
                    old(self).entries@[i].seq_num as int,
                ) > 0);
            }
        }
        due
    }
}

/// Dropping a span never grows the list.
proof fn lemma_drop_span_len(s: Seq<LossEntry>, first: i32, last: i32)
    ensures
        drop_span_spec(s, first, last).len() <= s.len(),
    decreases s.len(),
{
    if s.len() > 0 {
        lemma_drop_span_len(s.drop_last(), first, last);
    }
}

/// Each selection of an unresolved entry strictly raises its feedback
/// count (until the count saturates), and a freshly selected entry is not
/// due again before its new, longer backoff interval has elapsed.
pub proof fn lemma_nak_backoff(e: LossEntry, now: i64, later: i64, min_interval: i64)
    requires
        0 <= e.k < i32::MAX,
        1 <= min_interval,
        later - now < backoff_interval_spec(min_interval, (e.k + 1) as i32),
    ensures
        refreshed(e, now).k == e.k + 1,
        refreshed(e, now).feedback_time == now,
        !is_due(refreshed(e, now), later, min_interval),
        backoff_interval_spec(min_interval, (e.k + 1) as i32) >= backoff_interval_spec(
            min_interval,
            e.k,
        ),
{
    lemma_pow2_monotone(backoff_exponent(e.k), backoff_exponent((e.k + 1) as i32));
    assert(min_interval * pow2(backoff_exponent(e.k)) <= min_interval * pow2(
        backoff_exponent((e.k + 1) as i32),
    )) by (nonlinear_arith)
        requires
            min_interval >= 1,
            pow2(backoff_exponent(e.k)) <= pow2(backoff_exponent((e.k + 1) as i32)),
    ;
}

} // verus!
