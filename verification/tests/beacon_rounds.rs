use bataille::{current_round, GENESIS_TIME, PERIOD};

#[test]
fn beacon_constants() {
    assert_eq!(GENESIS_TIME, 1692803367);
    assert_eq!(PERIOD, 3);
}

#[test]
fn round_at_genesis_is_one() {
    assert_eq!(current_round(GENESIS_TIME), 1);
    assert_eq!(current_round(GENESIS_TIME + 1), 1);
    assert_eq!(current_round(GENESIS_TIME + 2), 1);
}

#[test]
fn round_steps_every_period() {
    assert_eq!(current_round(GENESIS_TIME + 3), 2);
    assert_eq!(current_round(GENESIS_TIME + 5), 2);
    assert_eq!(current_round(GENESIS_TIME + 6), 3);
    assert_eq!(current_round(GENESIS_TIME + 10), 4);
    assert_eq!(current_round(1_700_000_000), 2_398_878);
    for t in 0..100u64 {
        let now = GENESIS_TIME + t;
        assert_eq!(current_round(now + PERIOD), current_round(now) + 1);
        assert!(current_round(now) <= current_round(now + 1));
    }
}

#[test]
fn round_at_the_end_of_time() {
    assert_eq!(current_round(u64::MAX), (u64::MAX - GENESIS_TIME) / 3 + 1);
}
