use fox::analysis::rings::RingCursor;
use fox::strategy::market_exposure::{
    epoch_seconds, partition_slots, trade_expired, EpochClock, TIMESTEPS, WINDOW,
};
use fox::strategy::Strategy;

#[test]
fn strategy_codes() {
    assert_eq!(Strategy::from_code("mm"), Some(Strategy::MarketMake));
    assert_eq!(Strategy::from_code("se"), Some(Strategy::StructuredEntropy));
    assert_eq!(Strategy::from_code("sd"), Some(Strategy::SecondDerivative));
    assert_eq!(Strategy::from_code("gd"), Some(Strategy::ReverseRetail));
    assert_eq!(Strategy::from_code("me"), Some(Strategy::MarketExposure));
    assert_eq!(Strategy::from_code("xx"), None);
    assert_eq!(Strategy::from_code("mmm"), None);
    assert_eq!(Strategy::from_code(""), None);
}

#[test]
fn window_fills_after_its_size() {
    let mut c = RingCursor::initialize(200);
    for i in 0..200usize {
        assert!(!c.full());
        assert_eq!(c.write_slot(), i);
        c.advance();
    }
    assert!(c.full());
    assert_eq!(c.write_slot(), 0);
    c.advance();
    assert!(c.full());
    assert_eq!(c.index(), 201);
    assert_eq!(c.size(), 200);
}

#[test]
fn window_ends() {
    let mut c = RingCursor::initialize(10);
    for _ in 0..13 {
        c.advance();
    }
    assert_eq!(c.endpoints(), (3, 2));
    assert_eq!(c.most_recent(), 2);
    assert_eq!(c.oldest(), 4);
    let mut c = RingCursor::initialize(10);
    for _ in 0..10 {
        c.advance();
    }
    assert_eq!(c.oldest(), 0);
}

#[test]
fn newest_slot_of_an_empty_window_wraps() {
    let c = RingCursor::initialize(10);
    assert_eq!(c.most_recent(), usize::MAX % 10);
}

#[test]
fn second_derivative_slots() {
    let mut c = RingCursor::initialize(100);
    for _ in 0..150 {
        c.advance();
    }
    // step 50: (150 + 50) % 100, 150 % 100, then from 150 - 51 = 99
    assert_eq!(c.second_derivative_slots(), (0, 50, 49, 99));
}

#[test]
fn epochs() {
    assert_eq!(TIMESTEPS, 6);
    assert_eq!(WINDOW, 3600);
    assert_eq!(epoch_seconds(), 600);
    let mut clock = EpochClock::new(TIMESTEPS);
    let mut seen = Vec::new();
    for _ in 0..7 {
        seen.push(clock.tick());
    }
    assert_eq!(seen, vec![(1, false), (2, false), (3, false), (4, false), (5, false), (0, true), (1, true)]);
    assert_eq!(clock.epoch(), 7);
}

#[test]
fn partitions_read_for_a_dip() {
    assert_eq!(partition_slots(6, 6), (5, 0, 1));
    assert_eq!(partition_slots(10, 6), (3, 4, 5));
}

#[test]
fn expired_trades() {
    assert!(!trade_expired(10, 5, 6));
    assert!(trade_expired(11, 5, 6));
    assert!(trade_expired(12, 5, 6));
}
