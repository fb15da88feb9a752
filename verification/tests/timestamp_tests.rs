use genpacket::timestamp::{SignedSpan, Span, Timestamp};

fn ts(secs: u64, micros: u32) -> Timestamp {
    Timestamp::new(secs, micros).unwrap()
}

#[test]
fn timestamp_rejects_a_full_second_of_micros() {
    assert_eq!(Timestamp::new(1, 999_999), Some(Timestamp { secs: 1, micros: 999_999 }));
    assert_eq!(Timestamp::new(1, 1_000_000), None);
    assert_eq!(Span::new(0, 1_000_000), None);
    assert_eq!(Span::new(3, 7), Some(Span { secs: 3, micros: 7 }));
}

#[test]
fn well_formed_means_less_than_a_second_of_micros() {
    assert!(Timestamp { secs: 0, micros: 999_999 }.is_well_formed());
    assert!(!Timestamp { secs: 0, micros: 1_000_000 }.is_well_formed());
    assert!(Span { secs: u64::MAX, micros: 0 }.is_well_formed());
    assert!(!Span { secs: 0, micros: u32::MAX }.is_well_formed());
}

#[test]
fn signed_delta_borrows_across_the_second() {
    let d = ts(11, 100).signed_delta(ts(10, 900_000));
    assert_eq!(d, SignedSpan { negative: false, magnitude: Span { secs: 0, micros: 100_100 } });
}

#[test]
fn signed_delta_differs_from_fieldwise_subtraction() {
    // 12.100000 - 10.900000 is 1.200000: one second is borrowed.
    let d = ts(12, 100_000).signed_delta(ts(10, 900_000));
    assert_eq!(d, SignedSpan { negative: false, magnitude: Span { secs: 1, micros: 200_000 } });
}

#[test]
fn signed_delta_without_borrow() {
    let d = ts(12, 900_000).signed_delta(ts(10, 100_000));
    assert_eq!(d, SignedSpan { negative: false, magnitude: Span { secs: 2, micros: 800_000 } });
}

#[test]
fn signed_delta_is_negative_for_an_earlier_packet() {
    let d = ts(10, 900_000).signed_delta(ts(12, 100_000));
    assert_eq!(d, SignedSpan { negative: true, magnitude: Span { secs: 1, micros: 200_000 } });
    assert!(!d.is_positive());
    assert_eq!(d.clamped(), Span { secs: 0, micros: 0 });
}

#[test]
fn signed_delta_of_equal_timestamps_is_plain_zero() {
    let d = ts(5, 5).signed_delta(ts(5, 5));
    assert_eq!(d, SignedSpan { negative: false, magnitude: Span { secs: 0, micros: 0 } });
    assert!(!d.is_positive());
}

#[test]
fn signed_delta_at_the_ends_of_the_range() {
    let d = ts(0, 0).signed_delta(ts(u64::MAX, 999_999));
    assert_eq!(
        d,
        SignedSpan { negative: true, magnitude: Span { secs: u64::MAX, micros: 999_999 } }
    );
}

#[test]
fn elapsed_since_clamps_to_zero() {
    assert_eq!(ts(3, 0).elapsed_since(ts(4, 0)), Span { secs: 0, micros: 0 });
    assert_eq!(ts(4, 250_000).elapsed_since(ts(3, 750_000)), Span { secs: 0, micros: 500_000 });
}

#[test]
fn is_before_orders_by_seconds_then_micros() {
    assert!(ts(1, 999_999).is_before(ts(2, 0)));
    assert!(ts(2, 0).is_before(ts(2, 1)));
    assert!(!ts(2, 1).is_before(ts(2, 1)));
    assert!(!ts(3, 0).is_before(ts(2, 999_999)));
}

#[test]
fn span_arithmetic_is_exact() {
    assert_eq!(Span::from_millis(1_500), Span { secs: 1, micros: 500_000 });
    assert_eq!(Span::from_millis(999), Span { secs: 0, micros: 999_000 });
    assert_eq!(Span::from_secs(7), Span { secs: 7, micros: 0 });
    assert_eq!(Span { secs: 2, micros: 3 }.total_micros(), 2_000_003u128);
    assert_eq!(ts(2, 3).total_micros(), 2_000_003u128);
    assert_eq!(
        Span { secs: u64::MAX, micros: 999_999 }.total_micros(),
        u64::MAX as u128 * 1_000_000 + 999_999
    );
    assert!(Span { secs: 1, micros: 0 }.at_least(Span { secs: 0, micros: 999_999 }));
    assert!(Span { secs: 1, micros: 0 }.at_least(Span { secs: 1, micros: 0 }));
    assert!(!Span { secs: 1, micros: 0 }.at_least(Span { secs: 1, micros: 1 }));
    assert!(Span::zero().is_zero());
    assert!(!Span { secs: 0, micros: 1 }.is_zero());
}
