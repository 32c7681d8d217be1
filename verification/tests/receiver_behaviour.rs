//! Behaviour of the receiver core: ACK clocking, NAK backoff, ACK2
//! round-trip correlation, handshake reflection, dispatch of the other
//! control types, and the end-to-end loss scenario.

use srt_receiver::packet::{AckInfo, ControlType, Packet};
use srt_receiver::receiver::{Receiver, ReceiverConfig};

fn fresh(initial_seq: i32) -> Receiver {
    Receiver::new(1, 42, initial_seq, 0, ReceiverConfig::default())
}

fn data(seq: i32, payload: &[u8]) -> Packet {
    Packet::Data { seq_number: seq, timestamp: 0, dest_sockid: 42, payload: payload.to_vec() }
}

fn control(control_type: ControlType) -> Packet {
    Packet::Control { timestamp: 5, dest_sockid: 42, control_type }
}

#[test]
fn ack_periodicity() {
    // the ACK period is 10_000; advance the clock by exactly one period,
    // five times, with no inbound traffic: exactly five ACKs come out,
    // with strictly increasing ACK numbers and non-decreasing timestamps
    let mut r = fresh(0);
    let mut acks: Vec<(i32, i32, i64)> = Vec::new();
    for step in 1..=5 {
        let now = 10_000 * step;
        let sends = r.check_timers(now);
        assert_eq!(sends.len(), 1, "exactly one ACK per period");
        match &sends[0] {
            Packet::Control { timestamp, dest_sockid, control_type: ControlType::Ack(n, info) } => {
                assert_eq!(*dest_sockid, 42);
                acks.push((*n, info.lrsn, *timestamp));
            }
            other => panic!("expected an ACK, got {:?}", other),
        }
    }
    assert_eq!(acks.len(), 5);
    for t in 1..acks.len() {
        assert!(acks[t].0 > acks[t - 1].0, "ACK numbers strictly increase");
        assert!(acks[t].2 >= acks[t - 1].2, "timestamps never decrease");
    }
    assert_eq!(acks[0].0, 0);
    assert_eq!(acks[4].0, 4);
}

#[test]
fn no_ack_before_the_period_elapses() {
    let mut r = fresh(0);
    let sends = r.check_timers(9_999);
    assert_eq!(sends.len(), 0);
    let sends = r.check_timers(10_000);
    assert_eq!(sends.len(), 1);
}

#[test]
fn nak_backoff_across_timer_fires() {
    // lrsn starts at 2; packet 5 reveals the gap {3, 4}
    let mut r = fresh(2);
    r.handle_packet(data(5, b"x"), 0);
    assert_eq!(r.loss_list.seq_nums(), vec![3, 4]);

    // first NAK fire at 100_000: both entries due (minimum interval
    // 100_000, no feedback yet), so a NAK lists them and k becomes 1
    let sends = r.check_timers(100_000);
    let nak: Vec<&Packet> = sends
        .iter()
        .filter(|p| matches!(p, Packet::Control { control_type: ControlType::Nak(_), .. }))
        .collect();
    assert_eq!(nak.len(), 1);
    match nak[0] {
        Packet::Control { control_type: ControlType::Nak(listed), .. } => {
            assert_eq!(listed, &vec![3, 4]);
        }
        _ => unreachable!(),
    }
    assert_eq!(r.loss_list.entries[0].k, 1);
    assert_eq!(r.loss_list.entries[0].feedback_time, 100_000);

    // second fire at 200_000: the backed-off interval is now 200_000,
    // which has not elapsed since the feedback at 100_000 — no NAK
    let sends = r.check_timers(200_000);
    assert!(sends
        .iter()
        .all(|p| !matches!(p, Packet::Control { control_type: ControlType::Nak(_), .. })));
    assert_eq!(r.loss_list.entries[0].k, 1);

    // at 300_000 the backoff has elapsed: selected again, k strictly grows
    let sends = r.check_timers(300_000);
    let nak_count = sends
        .iter()
        .filter(|p| matches!(p, Packet::Control { control_type: ControlType::Nak(_), .. }))
        .count();
    assert_eq!(nak_count, 1);
    assert_eq!(r.loss_list.entries[0].k, 2);
}

#[test]
fn ack2_round_trip_yields_exact_rtt_sample() {
    let mut r = fresh(0);
    // an ACK goes out at T = 10_000 and is recorded in the history
    let sends = r.check_timers(10_000);
    assert_eq!(sends.len(), 1);
    let rtt_before = r.rtt;
    assert_eq!(rtt_before, 100_000);

    // the matching ACK2 arrives 500 later: the sample is exactly 500
    r.handle_packet(control(ControlType::Ack2(0)), 10_500);
    assert_eq!(r.rtt, (7 * 100_000 + 500) / 8);
}

#[test]
fn ack2_for_unknown_ack_number_is_ignored() {
    let mut r = fresh(0);
    r.check_timers(10_000);
    let rtt_before = r.rtt;
    let step = r.handle_packet(control(ControlType::Ack2(77)), 10_500);
    assert_eq!(r.rtt, rtt_before);
    assert_eq!(step.sends.len(), 0);
    assert!(!step.closed);
}

#[test]
fn handshake_is_reflected_verbatim() {
    let mut r = fresh(0);
    let hs = Packet::Control {
        timestamp: 123,
        dest_sockid: 9,
        control_type: ControlType::Handshake(vec![1, 2, 3, 4]),
    };
    let lrsn_before = r.lrsn;
    let step = r.handle_packet(hs.clone(), 50);
    assert_eq!(step.sends.len(), 1);
    assert_eq!(step.sends[0], hs, "the very same packet goes back");
    assert_eq!(step.delivered, None);
    assert_eq!(r.lrsn, lrsn_before);
    assert_eq!(r.loss_list.seq_nums(), Vec::<i32>::new());
}

#[test]
fn keep_alive_resets_the_expiration_count() {
    let mut r = fresh(0);
    // two expiration fires with no traffic escalate the count
    r.check_timers(500_000);
    assert_eq!(r.exp_count, 1);
    r.check_timers(1_000_000);
    assert_eq!(r.exp_count, 2);
    // a keep-alive resets it
    r.handle_packet(control(ControlType::KeepAlive), 1_000_100);
    assert_eq!(r.exp_count, 0);
}

#[test]
fn traffic_suppresses_the_expiration_count() {
    let mut r = fresh(0);
    r.handle_packet(data(1, b"x"), 400_000);
    // the fire sees traffic since the last fire: no escalation
    r.check_timers(500_000);
    assert_eq!(r.exp_count, 0);
    // the next fire sees none: escalation
    r.check_timers(1_000_000);
    assert_eq!(r.exp_count, 1);
}

#[test]
fn drop_request_clears_the_range_unconditionally() {
    let mut r = fresh(2);
    r.handle_packet(data(8, b"x"), 0);
    assert_eq!(r.loss_list.seq_nums(), vec![3, 4, 5, 6, 7]);
    let step = r.handle_packet(control(ControlType::DropRequest(4, 6)), 10);
    assert_eq!(r.loss_list.seq_nums(), vec![3, 7]);
    assert_eq!(step.sends.len(), 0);
}

#[test]
fn shutdown_is_terminal() {
    let mut r = fresh(0);
    let step = r.handle_packet(control(ControlType::Shutdown), 10);
    assert!(step.closed);
    assert!(r.closed);
    assert_eq!(step.sends.len(), 0);
    assert_eq!(step.delivered, None);
}

#[test]
fn ack_and_nak_leave_a_pure_receiver_untouched() {
    let mut r = fresh(0);
    let lrsn = r.lrsn;
    let step = r.handle_packet(control(ControlType::Ack(3, AckInfo { lrsn: 9 })), 10);
    assert_eq!(step.sends.len(), 0);
    let step = r.handle_packet(control(ControlType::Nak(vec![5, 6])), 11);
    assert_eq!(step.sends.len(), 0);
    assert_eq!(r.lrsn, lrsn);
    assert_eq!(r.loss_list.seq_nums(), Vec::<i32>::new());
}

#[test]
fn malformed_data_sequence_number_is_ignored() {
    let mut r = fresh(0);
    let step = r.handle_packet(data(-5, b"x"), 10);
    assert_eq!(step.delivered, None);
    assert_eq!(r.lrsn, 0);
    assert_eq!(r.packet_history_window.len(), 0);
}

#[test]
fn end_to_end_loss_and_late_arrival() {
    // data arrives as [100, 101, 103, 104, 102]: delivery preserves
    // arrival order, the loss list transiently holds {102}, and ends empty
    // with the high-water mark at 104
    let mut r = fresh(99);
    let mut delivered: Vec<Vec<u8>> = Vec::new();
    let arrivals: [(i32, &[u8]); 5] =
        [(100, b"a"), (101, b"b"), (103, b"c"), (104, b"d"), (102, b"e")];
    for (i, (seq, payload)) in arrivals.iter().enumerate() {
        let step = r.handle_packet(data(*seq, payload), i as i64);
        delivered.push(step.delivered.expect("every data packet is delivered"));
        if *seq == 103 {
            assert_eq!(r.loss_list.seq_nums(), vec![102], "the gap shows up");
        }
    }
    let expected: Vec<Vec<u8>> =
        vec![b"a".to_vec(), b"b".to_vec(), b"c".to_vec(), b"d".to_vec(), b"e".to_vec()];
    assert_eq!(delivered, expected, "arrival order is preserved");
    assert_eq!(r.lrsn, 104);
    assert_eq!(r.loss_list.seq_nums(), Vec::<i32>::new());
}

#[test]
fn duplicate_data_is_delivered_but_does_not_move_the_mark() {
    let mut r = fresh(99);
    r.handle_packet(data(100, b"a"), 0);
    let step = r.handle_packet(data(100, b"a"), 1);
    assert_eq!(step.delivered, Some(b"a".to_vec()));
    assert_eq!(r.lrsn, 100);
}

#[test]
fn a_gap_too_wide_to_track_is_rejected_whole() {
    // a jump of nearly half the sequence space cannot be tracked as a gap
    // (it would also blow the loss-list capacity): the loss list is left
    // alone while the high-water mark still advances
    let mut r = fresh(2);
    r.handle_packet(data(5, b"x"), 0);
    assert_eq!(r.loss_list.seq_nums(), vec![3, 4]);
    let far = 6 + 0x3fff_fffe;
    let step = r.handle_packet(data(far, b"y"), 1);
    assert_eq!(step.delivered, Some(b"y".to_vec()));
    assert_eq!(r.loss_list.seq_nums(), vec![3, 4]);
    assert_eq!(r.lrsn, far);
}
