//! Wraparound behaviour of the sequence-number arithmetic, held against a
//! brute-force circular-distance reference near the modulus boundary.

use srt_receiver::seq_num::{seq_add, seq_cmp, seq_diff, seq_increment, SeqOrdering};

const MODULUS: i64 = 0x8000_0000;

/// Brute-force reference: length of the upward arc from `b` to `a`.
fn arc_up(a: i32, b: i32) -> i64 {
    let d = a as i64 - b as i64;
    if d >= 0 {
        d
    } else {
        d + MODULUS
    }
}

/// Brute-force reference: signed shorter-arc distance from `b` to `a`.
fn reference_diff(a: i32, b: i32) -> i64 {
    let up = arc_up(a, b);
    let down = arc_up(b, a);
    if up < down {
        up
    } else if down < up {
        -down
    } else if a == b {
        0
    } else {
        -(MODULUS / 2)
    }
}

#[test]
fn diff_matches_reference_near_boundary() {
    let interesting: [i32; 8] = [0, 1, 2, 5, i32::MAX - 2, i32::MAX - 1, i32::MAX, 1000];
    for &a in &interesting {
        for &b in &interesting {
            assert_eq!(seq_diff(a, b) as i64, reference_diff(a, b), "diff({a}, {b})");
        }
    }
}

#[test]
fn cmp_matches_reference_near_boundary() {
    let interesting: [i32; 7] = [0, 1, 3, i32::MAX - 2, i32::MAX - 1, i32::MAX, 7];
    for &a in &interesting {
        for &b in &interesting {
            let expected = match reference_diff(a, b) {
                d if d < 0 => SeqOrdering::Less,
                0 => SeqOrdering::Equal,
                _ => SeqOrdering::Greater,
            };
            assert_eq!(seq_cmp(a, b), expected, "cmp({a}, {b})");
        }
    }
}

#[test]
fn numbers_across_the_boundary_stay_ordered() {
    // a number slightly above the maximum logically precedes a small one
    assert_eq!(seq_cmp(i32::MAX, 3), SeqOrdering::Less);
    assert_eq!(seq_cmp(3, i32::MAX), SeqOrdering::Greater);
    assert_eq!(seq_diff(3, i32::MAX), 4);
    assert_eq!(seq_diff(i32::MAX, 3), -4);
}

#[test]
fn increment_wraps_at_the_modulus() {
    assert_eq!(seq_increment(0), 1);
    assert_eq!(seq_increment(i32::MAX - 1), i32::MAX);
    assert_eq!(seq_increment(i32::MAX), 0);
}

#[test]
fn add_wraps_at_the_modulus() {
    assert_eq!(seq_add(i32::MAX, 3), 2);
    assert_eq!(seq_add(5, 7), 12);
    assert_eq!(seq_add(i32::MAX, 0), i32::MAX);
}

#[test]
fn antipodal_distance_is_negative_half() {
    // both arcs are equally long: the convention picks the negative half
    let half: i64 = MODULUS / 2;
    assert_eq!(seq_diff(0x4000_0000, 0) as i64, -half);
    assert_eq!(seq_diff(0, 0x4000_0000) as i64, -half);
}
