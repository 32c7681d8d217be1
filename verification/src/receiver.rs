//! The receiver core: the orchestrating state machine of the receiving
//! side.
//!
//! The core consumes decoded inbound packets and clock readings, updates the
//! loss list, the history windows and the receive high-water mark, and
//! returns the control packets to emit and the payloads to deliver.  The
//! event loop around it — waiting on the transport and on the clock — is the
//! caller's: on every iteration the caller first lets the ready timers fire
//! through [`Receiver::check_timers`] (so periodic feedback is never starved
//! by inbound bursts) and then dispatches the next inbound packet through
//! [`Receiver::handle_packet`].

use vstd::prelude::*;

use crate::loss_list::{
    can_append, drop_span_spec, gap_entries, refresh_due_spec, select_due_spec, seqs_of, LossList,
};
use crate::packet::{AckInfo, ControlType, Packet};
use crate::seq_num::{
    lemma_seq_add_diff, lemma_seq_diff_additive, lemma_seq_diff_antisymmetric,
    lemma_seq_increment_advances, seq_add_spec, seq_diff, seq_diff_spec, seq_increment,
    seq_increment_spec, seq_valid, SEQ_HALF, SEQ_MODULUS,
};
use crate::timer::{period_valid, time_valid, Timer};
use crate::window::{find_spec, lemma_find_absent, lemma_record_then_find, record_spec,
    HistoryWindow};

verus! {

/// Largest round-trip-time sample and estimate the receiver keeps; larger
/// samples are clamped.
pub const RTT_CAP: i64 = 0x7fff_ffff;

/// Round-trip-time estimate assumed before any measurement.
pub const INITIAL_RTT: i64 = 100_000;

/// Timing configuration of the receiver, with documented defaults; exposed
/// so that the intervals can be tuned, and the NAK period refined from the
/// round-trip-time estimate once one exists.
#[derive(Clone, Copy, Debug, PartialEq, Eq, Structural)]
pub struct ReceiverConfig {
    /// Fixed period of the ACK timer.
    pub ack_period: i64,
    /// Initial period of the NAK timer, and the floor the period never
    /// drops below once it is re-derived from the round-trip time.
    pub nak_period: i64,
    /// Minimum interval before a loss entry is fed back again; doubled per
    /// feedback by the backoff.
    pub nak_min_interval: i64,
    /// Period of the expiration timer.
    pub exp_period: i64,
    /// Capacity of the ACK history window.
    pub ack_history_capacity: usize,
    /// Capacity of the packet arrival history window.
    pub packet_history_capacity: usize,
}

impl ReceiverConfig {
    /// All periods positive and bounded, all capacities positive.
    pub open spec fn wf(self) -> bool {
        period_valid(self.ack_period) && period_valid(self.nak_period) && period_valid(
            self.nak_min_interval,
        ) && period_valid(self.exp_period) && 1 <= self.ack_history_capacity && 1
            <= self.packet_history_capacity
    }
}

impl Default for ReceiverConfig {
    /// The documented defaults, in the protocol's timestamp unit.
    fn default() -> (r: ReceiverConfig)
        ensures
            r.wf(),
            r.ack_period == 10_000,
            r.nak_period == 100_000,
            r.nak_min_interval == 100_000,
            r.exp_period == 500_000,
            r.ack_history_capacity == 1024,
            r.packet_history_capacity == 1024,
    {
        ReceiverConfig {
            ack_period: 10_000,
            nak_period: 100_000,
            nak_min_interval: 100_000,
            exp_period: 500_000,
            ack_history_capacity: 1024,
            packet_history_capacity: 1024,
        }
    }
}

/// What one step of the receiver produced: control packets to send to the
/// remote endpoint, at most one payload to deliver to the caller, and
/// whether the connection is now closed.
pub struct StepResult {
    /// Control packets to emit to the remote endpoint, in order.
    pub sends: Vec<Packet>,
    /// Payload delivered to the caller by this step, if any.
    pub delivered: Option<Vec<u8>>,
    /// Whether the receiver has reached its terminal state.
    pub closed: bool,
}

/// A clamped round-trip-time sample: the elapsed time from the recorded
/// ACK send to the ACK2 arrival.
pub open spec fn rtt_sample_spec(ts: int, now: int) -> int {
    if now - ts > RTT_CAP {
        RTT_CAP as int
    } else {
        now - ts
    }
}

/// Exponential moving average of the round-trip-time estimate, weighting
/// the history seven eighths.
pub open spec fn rtt_update_spec(rtt: int, sample: int) -> int {
    (7 * rtt + sample) / 8
}

/// The NAK period derived from a round-trip-time estimate: the estimate
/// itself, floored at the configured initial period.
pub open spec fn nak_period_from_rtt(rtt: int, base: i64) -> int {
    if rtt < base {
        base as int
    } else {
        rtt
    }
}

/// The receiving-side reliability engine for one connection.
pub struct Receiver {
    /// Opaque handle of the remote endpoint outgoing packets are for.
    pub remote: u64,
    /// Destination connection identifier stamped on emitted packets.
    pub remote_sockid: i32,
    /// Timing configuration.
    pub config: ReceiverConfig,
    /// Sequence numbers believed lost.
    pub loss_list: LossList,
    /// Each sent ACK and the time it was sent, for ACK2 correlation.
    pub ack_history_window: HistoryWindow,
    /// Each accepted data arrival and its time, for rate estimation.
    pub packet_history_window: HistoryWindow,
    /// Drives periodic ACK emission.
    pub ack_timer: Timer,
    /// Drives periodic NAK emission.
    pub nak_timer: Timer,
    /// Drives the expiration count.
    pub exp_timer: Timer,
    /// Largest received sequence number seen so far.
    pub lrsn: i32,
    /// The next ACK sequence number, independent from data sequence
    /// numbers.
    pub next_ack: i32,
    /// Current round-trip-time estimate.
    pub rtt: i64,
    /// Consecutive expiration-timer fires with no traffic; connection-dead
    /// detection is the caller's threshold on this count.
    pub exp_count: i32,
    /// Whether any packet arrived since the last expiration-timer fire.
    pub traffic_since_exp: bool,
    /// Whether the receiver reached its terminal state.
    pub closed: bool,
}

impl Receiver {
    /// Structural invariant of the whole receiver.
    pub open spec fn wf(self) -> bool {
        self.config.wf() && self.loss_list.wf() && self.ack_history_window.wf()
            && self.packet_history_window.wf() && self.ack_timer.wf() && self.nak_timer.wf()
            && self.exp_timer.wf() && self.ack_timer.period == self.config.ack_period
            && self.exp_timer.period == self.config.exp_period && seq_valid(self.lrsn)
            && seq_valid(self.next_ack) && 0 <= self.rtt <= RTT_CAP && 0 <= self.exp_count
            && self.ack_history_window.capacity == self.config.ack_history_capacity
            && self.packet_history_window.capacity == self.config.packet_history_capacity
    }

    /// Create a receiver for one connection.  `initial_seq` is the sequence
    /// number immediately before the first expected data packet, `now` the
    /// current clock reading.
    pub fn new(remote: u64, remote_sockid: i32, initial_seq: i32, now: i64, config: ReceiverConfig)
        -> (r: Receiver)
        requires
            seq_valid(initial_seq),
            time_valid(now),
            config.wf(),
        ensures
            r.wf(),
            r.remote == remote,
            r.remote_sockid == remote_sockid,
            r.config == config,
            r.loss_list.entries@ == Seq::<crate::loss_list::LossEntry>::empty(),
            r.ack_history_window.entries@ == Seq::<(i32, i64)>::empty(),
            r.packet_history_window.entries@ == Seq::<(i32, i64)>::empty(),
            r.lrsn == initial_seq,
            r.next_ack == 0,
            r.rtt == INITIAL_RTT,
            r.exp_count == 0,
            !r.traffic_since_exp,
            !r.closed,
            r.ack_timer.next_fire == now + config.ack_period,
            r.nak_timer.next_fire == now + config.nak_period,
            r.nak_timer.period == config.nak_period,
            r.exp_timer.next_fire == now + config.exp_period,
    {
        Receiver {
            remote,
            remote_sockid,
            config,
            loss_list: LossList::new(),
            ack_history_window: HistoryWindow::new(config.ack_history_capacity),
            packet_history_window: HistoryWindow::new(config.packet_history_capacity),
            ack_timer: Timer::new(config.ack_period, now),
            nak_timer: Timer::new(config.nak_period, now),
            exp_timer: Timer::new(config.exp_period, now),
            lrsn: initial_seq,
            next_ack: 0,
            rtt: INITIAL_RTT,
            exp_count: 0,
            traffic_since_exp: false,
            closed: false,
        }
    }

    /// Poll the three periodic triggers at `now` and perform the emissions
    /// of those that fired, in fixed order: an ACK summarising the receive
    /// high-water mark (recorded in the ACK history, advancing the ACK
    /// number), then a NAK listing the loss entries due for feedback (each
    /// refreshed by its selection; no NAK is emitted when none is due),
    /// then the expiration count, escalated only when no packet arrived
    /// since the previous expiration fire.
    pub fn check_timers(&mut self, now: i64) -> (sends: Vec<Packet>)
        requires
            old(self).wf(),
            time_valid(now),
        ensures
            final(self).wf(),
            final(self).remote == old(self).remote,
            final(self).remote_sockid == old(self).remote_sockid,
            final(self).config == old(self).config,
            final(self).lrsn == old(self).lrsn,
            final(self).closed == old(self).closed,
            final(self).rtt == old(self).rtt,
            final(self).packet_history_window == old(self).packet_history_window,
            final(self).nak_timer.period == old(self).nak_timer.period,
            ({
                let ack_fired = now >= old(self).ack_timer.next_fire;
                &&& (ack_fired ==> final(self).ack_timer.next_fire == now
                    + old(self).config.ack_period && final(self).next_ack as int
                    == seq_increment_spec(old(self).next_ack as int)
                    && final(self).ack_history_window.entries@ == record_spec(
                    old(self).ack_history_window.entries@,
                    old(self).ack_history_window.capacity as int,
                    old(self).next_ack,
                    now,
                ) && sends@.len() >= 1 && sends@[0] == (Packet::Control {
                    timestamp: now,
                    dest_sockid: old(self).remote_sockid,
                    control_type: ControlType::Ack(
                        old(self).next_ack,
                        AckInfo { lrsn: old(self).lrsn },
                    ),
                }))
                &&& (!ack_fired ==> final(self).ack_timer == old(self).ack_timer && final(self).next_ack == old(self).next_ack && final(self).ack_history_window == old(self).ack_history_window)
            }),
            ({
                let ack_emitted: int = if now >= old(self).ack_timer.next_fire {
                    1
                } else {
                    0
                };
                let nak_fired = now >= old(self).nak_timer.next_fire;
                let due = select_due_spec(
                    old(self).loss_list.entries@,
                    now,
                    old(self).config.nak_min_interval,
                );
                &&& (nak_fired ==> final(self).loss_list.entries@ == refresh_due_spec(
                    old(self).loss_list.entries@,
                    now,
                    old(self).config.nak_min_interval,
                ) && final(self).nak_timer.next_fire == now + old(self).nak_timer.period)
                &&& (nak_fired && due.len() > 0 ==> sends@.len() == ack_emitted + 1 && (
                sends@[ack_emitted] matches Packet::Control {
                    timestamp: t2,
                    dest_sockid: d2,
                    control_type: ControlType::Nak(v),
                } && t2 == now && d2 == old(self).remote_sockid && v@ == seqs_of(due)))
                &&& (nak_fired && due.len() == 0 ==> sends@.len() == ack_emitted)
                &&& (!nak_fired ==> final(self).loss_list == old(self).loss_list && final(self).nak_timer == old(self).nak_timer && sends@.len() == ack_emitted)
            }),
            ({
                let exp_fired = now >= old(self).exp_timer.next_fire;
                &&& (exp_fired ==> final(self).exp_timer.next_fire == now
                    + old(self).config.exp_period && !final(self).traffic_since_exp)
                &&& (exp_fired && old(self).traffic_since_exp ==> final(self).exp_count == old(self).exp_count)
                &&& (exp_fired && !old(self).traffic_since_exp ==> final(self).exp_count as int
                    == (if old(self).exp_count < i32::MAX {
                    old(self).exp_count + 1
                } else {
                    old(self).exp_count as int
                }))
                &&& (!exp_fired ==> final(self).exp_timer == old(self).exp_timer && final(self).traffic_since_exp == old(self).traffic_since_exp && final(self).exp_count == old(self).exp_count)
            }),
    {
        let mut sends: Vec<Packet> = Vec::new();
        if self.ack_timer.check_fire(now) {
            self.ack_history_window.record(self.next_ack, now);
            let ack = Packet::Control {
                timestamp: now,
                dest_sockid: self.remote_sockid,
                control_type: ControlType::Ack(self.next_ack, AckInfo { lrsn: self.lrsn }),
            };
            self.next_ack = seq_increment(self.next_ack);
            sends.push(ack);
        }
        if self.nak_timer.check_fire(now) {
            let due = self.loss_list.due_for_feedback(now, self.config.nak_min_interval);
            if due.len() > 0 {
                let mut listed: Vec<i32> = Vec::new();
                let mut i: usize = 0;
                while i < due.len()
                    invariant
                        i <= due@.len(),
                        listed@.len() == i,
                        forall|t: int| 0 <= t < i ==> listed@[t] == due@[t].seq_num,
                    decreases due@.len() - i,
                {
                    listed.push(due[i].seq_num);
                    i = i + 1;
                }
                proof {
                    assert(listed@ =~= seqs_of(due@));
                }
                sends.push(
                    Packet::Control {
                        timestamp: now,
                        dest_sockid: self.remote_sockid,
                        control_type: ControlType::Nak(listed),
                    },
                );
            }
        }
        if self.exp_timer.check_fire(now) {
            if self.traffic_since_exp {
                self.traffic_since_exp = false;
            } else if self.exp_count < i32::MAX {
                self.exp_count = self.exp_count + 1;
            }
        }
        sends
    }

    /// Dispatch one inbound packet at `now`.
    ///
    /// A data packet is recorded in the arrival history, compared against
    /// the receive high-water mark — the expected next advances the mark, a
    /// packet further ahead records the revealed gap in the loss list and
    /// then advances the mark, a packet behind the mark (a duplicate or a
    /// late arrival of a lost packet) clears its loss entry — and its
    /// payload is delivered in arrival order.  A handshake is reflected
    /// back verbatim.  A keep-alive resets the expiration count.  An ACK2
    /// is correlated against the ACK history to refine the round-trip-time
    /// estimate (and with it the NAK period); an unknown or evicted ACK
    /// number is ignored.  A drop request clears its sequence range from
    /// the loss list unconditionally.  A shutdown is terminal.  ACKs and
    /// NAKs address the sender role and leave the receiver untouched, as
    /// does a data packet with a malformed (negative) sequence number.
    /// Every arrival counts as traffic for the expiration trigger.
    pub fn handle_packet(&mut self, p: Packet, now: i64) -> (r: StepResult)
        requires
            old(self).wf(),
            time_valid(now),
        ensures
            final(self).wf(),
            final(self).remote == old(self).remote,
            final(self).remote_sockid == old(self).remote_sockid,
            final(self).config == old(self).config,
            final(self).ack_timer == old(self).ack_timer,
            final(self).exp_timer == old(self).exp_timer,
            final(self).next_ack == old(self).next_ack,
            final(self).traffic_since_exp,
            final(self).exp_count <= old(self).exp_count,
            r.closed == final(self).closed,
            p matches Packet::Data { seq_number, payload, .. } ==> seq_valid(seq_number) ==> ({
                let expected = seq_increment_spec(old(self).lrsn as int);
                let d = seq_diff_spec(seq_number as int, expected);
                &&& final(self).packet_history_window.entries@ == record_spec(
                    old(self).packet_history_window.entries@,
                    old(self).packet_history_window.capacity as int,
                    seq_number,
                    now,
                )
                &&& r.delivered == Option::Some(payload)
                &&& r.sends@ == Seq::<Packet>::empty()
                &&& final(self).closed == old(self).closed
                &&& final(self).rtt == old(self).rtt
                &&& final(self).nak_timer == old(self).nak_timer
                &&& final(self).exp_count == old(self).exp_count
                &&& final(self).ack_history_window == old(self).ack_history_window
                &&& (d == 0 ==> final(self).lrsn == seq_number && final(self).loss_list.entries@
                    == old(self).loss_list.entries@)
                &&& (d > 0 ==> final(self).lrsn == seq_number && final(self).loss_list.entries@
                    == (if can_append(old(self).loss_list.entries@, expected as i32, seq_number) {
                    old(self).loss_list.entries@ + gap_entries(expected as i32, d, now)
                } else {
                    old(self).loss_list.entries@
                }))
                &&& (d < 0 ==> final(self).lrsn == old(self).lrsn && final(self).loss_list.entries@ == drop_span_spec(
                    old(self).loss_list.entries@,
                    seq_number,
                    seq_number,
                ))
            }),
            p matches Packet::Data { seq_number, .. } ==> !seq_valid(seq_number) ==> ({
                &&& unchanged_but_traffic(*old(self), *final(self))
                &&& r.delivered matches Option::None
                &&& r.sends@ == Seq::<Packet>::empty()
            }),
            p matches Packet::Control { .. } ==> ({
                &&& final(self).packet_history_window == old(self).packet_history_window
                &&& final(self).lrsn == old(self).lrsn
                &&& final(self).ack_history_window == old(self).ack_history_window
                &&& r.delivered matches Option::None
            }),
            p matches Packet::Control { control_type: ControlType::Handshake(_), .. } ==> ({
                &&& r.sends@ == seq![p]
                &&& unchanged_but_traffic(*old(self), *final(self))
            }),
            p matches Packet::Control { control_type: ControlType::KeepAlive, .. } ==> ({
                &&& final(self).exp_count == 0
                &&& final(self).loss_list == old(self).loss_list
                &&& final(self).rtt == old(self).rtt
                &&& final(self).nak_timer == old(self).nak_timer
                &&& final(self).closed == old(self).closed
                &&& r.sends@ == Seq::<Packet>::empty()
            }),
            p matches Packet::Control { control_type: ControlType::Ack(_, _), .. } ==> ({
                &&& unchanged_but_traffic(*old(self), *final(self))
                &&& r.sends@ == Seq::<Packet>::empty()
            }),
            p matches Packet::Control { control_type: ControlType::Nak(_), .. } ==> ({
                &&& unchanged_but_traffic(*old(self), *final(self))
                &&& r.sends@ == Seq::<Packet>::empty()
            }),
            p matches Packet::Control { control_type: ControlType::Ack2(ack_seq), .. } ==> ({
                let found = find_spec(old(self).ack_history_window.entries@, ack_seq);
                &&& final(self).loss_list == old(self).loss_list
                &&& final(self).closed == old(self).closed
                &&& final(self).exp_count == old(self).exp_count
                &&& r.sends@ == Seq::<Packet>::empty()
                &&& (found matches Option::Some(ts) ==> ({
                    &&& (ts <= now ==> final(self).rtt as int == rtt_update_spec(
                        old(self).rtt as int,
                        rtt_sample_spec(ts as int, now as int),
                    ) && final(self).nak_timer.period as int == nak_period_from_rtt(
                        final(self).rtt as int,
                        old(self).config.nak_period,
                    ) && final(self).nak_timer.next_fire == old(self).nak_timer.next_fire)
                    &&& (ts > now ==> final(self).rtt == old(self).rtt && final(self).nak_timer
                        == old(self).nak_timer)
                }))
                &&& (found matches Option::None ==> final(self).rtt == old(self).rtt && final(self).nak_timer == old(self).nak_timer)
            }),
            p matches Packet::Control { control_type: ControlType::DropRequest(first, last), .. } ==> ({
                &&& final(self).rtt == old(self).rtt
                &&& final(self).nak_timer == old(self).nak_timer
                &&& final(self).closed == old(self).closed
                &&& final(self).exp_count == old(self).exp_count
                &&& r.sends@ == Seq::<Packet>::empty()
                &&& (seq_valid(first) && seq_valid(last) ==> final(self).loss_list.entries@
                    == drop_span_spec(old(self).loss_list.entries@, first, last))
                &&& (!(seq_valid(first) && seq_valid(last)) ==> final(self).loss_list == old(self).loss_list)
            }),
            p matches Packet::Control { control_type: ControlType::Shutdown, .. } ==> ({
                &&& final(self).closed
                &&& r.closed
                &&& final(self).loss_list == old(self).loss_list
                &&& final(self).rtt == old(self).rtt
                &&& final(self).nak_timer == old(self).nak_timer
                &&& final(self).exp_count == old(self).exp_count
                &&& r.sends@ == Seq::<Packet>::empty()
            }),
    {
        self.traffic_since_exp = true;
        match p {
            Packet::Data { seq_number, timestamp: _, dest_sockid: _, payload } => {
                if seq_number < 0 {
                    StepResult { sends: Vec::new(), delivered: Option::None, closed: self.closed }
                } else {
                    self.packet_history_window.record(seq_number, now);
                    let expected = seq_increment(self.lrsn);
                    let d = seq_diff(seq_number, expected);
                    if d == 0 {
                        self.lrsn = seq_number;
                    } else if d > 0 {
                        self.loss_list.record_gap(expected, seq_number, now);
                        self.lrsn = seq_number;
                    } else {
                        self.loss_list.remove(seq_number);
                    }
                    StepResult {
                        sends: Vec::new(),
                        delivered: Option::Some(payload),
                        closed: self.closed,
                    }
                }
            },
            Packet::Control { timestamp, dest_sockid, control_type } => {
                match control_type {
                    ControlType::Handshake(info) => {
                        let mut sends: Vec<Packet> = Vec::new();
                        sends.push(
                            Packet::Control {
                                timestamp,
                                dest_sockid,
                                control_type: ControlType::Handshake(info),
                            },
                        );
                        proof {
                            assert(sends@ =~= seq![p]);
                        }
                        StepResult { sends, delivered: Option::None, closed: self.closed }
                    },
                    ControlType::KeepAlive => {
                        self.exp_count = 0;
                        StepResult {
                            sends: Vec::new(),
                            delivered: Option::None,
                            closed: self.closed,
                        }
                    },
                    ControlType::Ack(_, _) => {
                        // addresses the sender role of a bidirectional
                        // peer; a pure receiver only notes the traffic
                        StepResult {
                            sends: Vec::new(),
                            delivered: Option::None,
                            closed: self.closed,
                        }
                    },
                    ControlType::Ack2(ack_seq) => {
                        let found = self.ack_history_window.find(ack_seq);
                        proof {
                            crate::window::lemma_find_spec_bounds(
                                self.ack_history_window.entries@,
                                ack_seq,
                            );
                        }
                        if let Option::Some(ts) = found {
                            if ts <= now {
                                let mut sample: i64 = now - ts;
                                if sample > RTT_CAP {
                                    sample = RTT_CAP;
                                }
                                self.rtt = (7 * self.rtt + sample) / 8;
                                let base = self.config.nak_period;
                                let derived: i64 = if self.rtt < base {
                                    base
                                } else {
                                    self.rtt
                                };
                                self.nak_timer.set_period(derived);
                            }
                        }
                        StepResult {
                            sends: Vec::new(),
                            delivered: Option::None,
                            closed: self.closed,
                        }
                    },
                    ControlType::Nak(_) => {
                        // addresses the sender role of a bidirectional
                        // peer; a pure receiver only notes the traffic
                        StepResult {
                            sends: Vec::new(),
                            delivered: Option::None,
                            closed: self.closed,
                        }
                    },
                    ControlType::DropRequest(first, last) => {
                        if first >= 0 && last >= 0 {
                            self.loss_list.remove_range(first, last);
                        }
                        StepResult {
                            sends: Vec::new(),
                            delivered: Option::None,
                            closed: self.closed,
                        }
                    },
                    ControlType::Shutdown => {
                        self.closed = true;
                        StepResult { sends: Vec::new(), delivered: Option::None, closed: true }
                    },
                }
            },
        }
    }
}

/// Everything of the receiver's state except the traffic mark is as it
/// was.
pub open spec fn unchanged_but_traffic(pre: Receiver, post: Receiver) -> bool {
    post == Receiver { traffic_since_exp: post.traffic_since_exp, ..pre }
}

/// Each ACK emission advances the ACK sequence number by exactly one step
/// of circular distance, so a run of emitted ACKs carries strictly
/// increasing ACK numbers.
pub proof fn lemma_ack_numbers_increase(a: int)
    requires
        0 <= a < SEQ_MODULUS,
    ensures
        seq_diff_spec(seq_increment_spec(a), a) == 1,
{
    lemma_seq_increment_advances(a, a);
}

/// Across any run of fewer than half the sequence space of ACK emissions,
/// the emitted ACK numbers are strictly increasing in the wraparound
/// order: the starting number advanced `j` times lies a positive circular
/// distance after the same number advanced only `i < j` times.
pub proof fn lemma_ack_run_strictly_increases(start: int, i: int, j: int)
    requires
        0 <= start < SEQ_MODULUS,
        0 <= i < j,
        j < SEQ_HALF,
    ensures
        seq_diff_spec(seq_add_spec(start, j), seq_add_spec(start, i)) > 0,
{
    lemma_seq_add_diff(start, i, start);
    lemma_seq_add_diff(start, j, start);
    lemma_seq_diff_antisymmetric(seq_add_spec(start, i), start);
    lemma_seq_diff_additive(seq_add_spec(start, j), start, seq_add_spec(start, i));
}

/// An ACK recorded in the history window at time `t` and answered by an
/// ACK2 at time `t + delta` is found again and yields a round-trip sample
/// of exactly `delta`; an ACK number held by no entry of the window is
/// reported absent, so such an ACK2 is ignored without effect.
pub proof fn lemma_ack2_round_trip(w: Seq<(i32, i64)>, ack_num: i32, t: i64, delta: i64)
    requires
        0 <= delta <= RTT_CAP,
    ensures
        find_spec(w.push((ack_num, t)), ack_num) == Option::Some(t),
        rtt_sample_spec(t as int, t as int + delta) == delta,
        (forall|i: int| 0 <= i < w.len() ==> w[i].0 != ack_num) ==> find_spec(w, ack_num)
            == Option::<i64>::None,
{
    lemma_record_then_find(w, ack_num, t);
    if forall|i: int| 0 <= i < w.len() ==> w[i].0 != ack_num {
        lemma_find_absent(w, ack_num);
    }
}

} // verus!
