use std::time::{Duration, SystemTime};

use hugetable::time::{
    HtClock, ManualClock, MergeTimestamp, TimeTravel, TtlTimestamp, WallClock, WallClockCounter,
    HT_EPOCH_MILLIS,
};

#[test]
pub fn test_wallclock_time() {
    let mut wall_clock = WallClock::new_without_callback(7, 3);

    let t1 = wall_clock.now().unwrap();
    let st1 = t1.as_system_time();

    assert_eq!(t1.time_travel_part(), 3);
    assert_eq!(t1.unique_context(), 7);
    assert_eq!(t1.ticks & 0b1_1111_1111_1111, 7 * 8 + 3);

    let diff1 = SystemTime::now().duration_since(st1).unwrap();
    assert!(diff1 < Duration::from_secs(1));

    let diff2 = st1.duration_since(SystemTime::UNIX_EPOCH).unwrap().as_millis()
        - t1.epoch_millis() as u128;
    assert_eq!(diff2, HT_EPOCH_MILLIS as u128);
}

#[test]
pub fn test_wallclock_strictly_monotonous() {
    let mut wall_clock = WallClock::new_without_callback(2, 5);

    let mut t1 = wall_clock.now().unwrap();
    let mut t2 = wall_clock.now().unwrap();
    for _ in 0..100_000 {
        assert!(t1 < t2);
        t1 = t2;
        t2 = wall_clock.now().unwrap();
    }
}

#[test]
pub fn test_manual_clock() {
    let mut clock = ManualClock::new(MergeTimestamp::from_ticks(12345));
    assert_eq!(clock.now().unwrap(), MergeTimestamp::from_ticks(12345));

    clock.set(MergeTimestamp::from_ticks(9876543));
    assert_eq!(clock.now().unwrap(), MergeTimestamp::from_ticks(9876543));
}

#[test]
pub fn merge_timestamp_parts_round_trip() {
    let t = MergeTimestamp::new(1_000_000, 5, 77, 3);
    assert_eq!(t.ticks, (1_000_000u64 << 23) + (5 << 13) + (77 << 3) + 3);
    assert_eq!(t.epoch_millis(), 1_000_000);
    assert_eq!(t.counter_part(), 5);
    assert_eq!(t.unique_context(), 77);
    assert_eq!(t.time_travel_part(), 3);
    assert_eq!(t.unix_millis(), HT_EPOCH_MILLIS + 1_000_000);
}

#[test]
pub fn merge_timestamp_counter_carries_into_the_epoch() {
    let t = MergeTimestamp::new(10, 1024 + 3, 1, 0);
    assert_eq!(t.epoch_millis(), 11);
    assert_eq!(t.counter_part(), 3);
    assert_eq!(t.unique_context(), 1);
}

#[test]
pub fn merge_timestamps_sort_by_time_travel_part() {
    for a in 0..8u64 {
        for b in 0..8u64 {
            let ta = MergeTimestamp::new(42, 7, 9, a);
            let tb = MergeTimestamp::new(42, 7, 9, b);
            assert_eq!(ta.cmp(&tb), a.cmp(&b));
            assert_eq!(ta < tb, a < b);
        }
    }
}

#[test]
pub fn merge_timestamps_sort_by_parts_in_order_of_weight() {
    let base = MergeTimestamp::new(42, 7, 9, 3);
    assert!(base < MergeTimestamp::new(43, 0, 0, 0));
    assert!(base < MergeTimestamp::new(42, 8, 0, 0));
    assert!(base < MergeTimestamp::new(42, 7, 10, 0));
    assert!(base < MergeTimestamp::new(42, 7, 9, 4));
    assert!(base > MergeTimestamp::new(41, 1023, 1023, 7));
}

#[test]
pub fn ttl_timestamp_is_seconds_after_the_epoch() {
    assert_eq!(TtlTimestamp::after(5_999, 10), Some(TtlTimestamp::new(15)));
    assert_eq!(TtlTimestamp::after(0, 0), Some(TtlTimestamp::new(0)));
    assert_eq!(TtlTimestamp::after(1_000, u32::MAX), None);
    assert_eq!(
        TtlTimestamp::after(1_000, u32::MAX - 1),
        Some(TtlTimestamp::new(u32::MAX))
    );
    let t = TtlTimestamp::new(60);
    assert_eq!(
        t.as_system_time()
            .duration_since(SystemTime::UNIX_EPOCH)
            .unwrap()
            .as_secs(),
        HT_EPOCH_MILLIS / 1000 + 60
    );
}

#[test]
pub fn manual_clock_ttl_follows_its_timestamp() {
    let clock = ManualClock::new(MergeTimestamp::new(7_500, 0, 0, 0));
    assert_eq!(clock.ttl_timestamp(30).unwrap(), TtlTimestamp::new(37));
    let late = ManualClock::new(MergeTimestamp::new(4_000_000_000_000, 0, 0, 0));
    assert!(late.ttl_timestamp(u32::MAX).is_err());
}

#[test]
pub fn counter_overflow_runs_into_the_next_millisecond() {
    let mut state = WallClockCounter::new(0);
    let mut last = state.advance(100, 5).unwrap();
    assert_eq!(last, MergeTimestamp::new(100, 1, 5, 0));
    for _ in 0..3000 {
        let next = state.advance(100, 5).unwrap();
        assert!(last < next);
        last = next;
    }
    assert_eq!(state.counter, 3001);
    assert_eq!(last.epoch_millis(), 102);
    assert_eq!(last.counter_part(), 3001 - 2048);

    // one millisecond later the overdraft is deducted, and time does not regress
    let next = state.advance(101, 5).unwrap();
    assert_eq!(state.counter, 3001 - 1024 + 1);
    assert!(last < next);

    // far later the counter starts anew
    let next2 = state.advance(500, 5).unwrap();
    assert_eq!(state.counter, 1);
    assert_eq!(next2, MergeTimestamp::new(500, 1, 5, 0));
    assert!(next < next2);
}

#[test]
pub fn clock_going_back_moves_to_another_reality() {
    let mut state = WallClockCounter::new(7);
    let first = state.advance(1000, 3).unwrap();
    assert_eq!(first, MergeTimestamp::new(1000, 1, 3, 7));
    let second = state.advance(999, 3).unwrap();
    assert_eq!(second, MergeTimestamp::new(999, 1, 3, 0));
    assert_eq!(state.time_travel_counter, 0);
    assert_eq!(state.cur_epoch_millis, 999);
}

#[test]
pub fn clock_reading_beyond_the_range_issues_nothing() {
    let mut state = WallClockCounter::new(1);
    assert_eq!(state.advance(1 << 41, 3), None);
    assert_eq!(state.cur_epoch_millis, 0);
    assert_eq!(state.counter, 0);
    assert!(state.advance((1 << 41) - 1, 3).is_some());

    let mut clock = WallClock::new_without_callback(1, 1);
    assert!(clock.now_at(1 << 41).is_err());
    let t = clock.now_at(77).unwrap();
    assert_eq!(t, MergeTimestamp::new(77, 1, 1, 1));
    let t = clock.now_at(76).unwrap();
    assert_eq!(t, MergeTimestamp::new(76, 1, 1, 2));
}

#[test]
pub fn clock_reading_is_the_time_passed_if_it_fits() {
    assert_eq!(WallClock::reading_of(Some(0)), Some(0));
    assert_eq!(WallClock::reading_of(Some(123_456)), Some(123_456));
    assert_eq!(WallClock::reading_of(Some(u64::MAX as u128)), Some(u64::MAX));
    assert_eq!(WallClock::reading_of(Some(u64::MAX as u128 + 1)), None);
    assert_eq!(WallClock::reading_of(None), None);
    assert!(WallClock::ht_epoch_millis().is_some());
}

#[test]
pub fn wall_clock_expiry_follows_the_reading() {
    assert_eq!(WallClock::ttl_at(Some(5_999), 10).unwrap(), TtlTimestamp::new(15));
    assert_eq!(WallClock::ttl_at(Some(0), 0).unwrap(), TtlTimestamp::new(0));
    assert!(WallClock::ttl_at(Some(1_000), u32::MAX).is_err());
    assert!(WallClock::ttl_at(None, 10).is_err());

    let clock = WallClock::new_without_callback(1, 0);
    let before = WallClock::ht_epoch_millis().unwrap() / 1000;
    let expiry = clock.ttl_timestamp(30).unwrap();
    let after = WallClock::ht_epoch_millis().unwrap() / 1000;
    assert!(before + 30 <= expiry.epoch_seconds as u64);
    assert!(expiry.epoch_seconds as u64 <= after + 30);
}

#[test]
pub fn wall_clock_counter_runs_past_its_ten_bits_within_a_millisecond() {
    let mut clock = WallClock::new_without_callback(5, 2);
    let mut last = clock.now_at(100).unwrap();
    assert_eq!(last, MergeTimestamp::new(100, 1, 5, 2));
    for k in 2..=1500u64 {
        let next = clock.now_at(100).unwrap();
        assert_eq!(next.ticks, last.ticks + 8192);
        assert_eq!(next, MergeTimestamp::new(100, k, 5, 2));
        assert_eq!(next.epoch_millis(), 100 + k / 1024);
        assert_eq!(next.counter_part(), k % 1024);
        last = next;
    }
    // one millisecond later 1024 are deducted: 1500 - 1024 + 1
    let next = clock.now_at(101).unwrap();
    assert_eq!(next, MergeTimestamp::new(101, 477, 5, 2));
    assert!(last < next);
    // three milliseconds later the counter starts anew
    let next = clock.now_at(104).unwrap();
    assert_eq!(next, MergeTimestamp::new(104, 1, 5, 2));
    // a clock that goes back moves to the next reality
    let next = clock.now_at(103).unwrap();
    assert_eq!(next, MergeTimestamp::new(103, 1, 5, 3));
}

#[test]
pub fn step_says_what_the_callback_is_owed() {
    let mut state = WallClockCounter::new(7);
    let first = state.step(1000, 3).unwrap();
    assert_eq!(first.timestamp, MergeTimestamp::new(1000, 1, 3, 7));
    assert_eq!(first.time_travel, None);
    let second = state.step(999, 3).unwrap();
    assert_eq!(second.timestamp, MergeTimestamp::new(999, 1, 3, 0));
    assert_eq!(
        second.time_travel,
        Some(TimeTravel { cur_millis: 999, prev_millis: 1000, new_time_travel_counter: 0 })
    );
    assert_eq!(state.step(1 << 41, 3), None);
    assert_eq!(state.cur_epoch_millis, 999);
}
