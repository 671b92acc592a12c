use coin_ingest::schedule::clamp_timestamp;
use coin_ingest::schedule::next_delay_until_target_utc;
use coin_ingest::schedule::SECONDS_PER_DAY;

#[test]
fn delay_from_midnight_to_evening_target() {
    // 20:32:00 is 73920 seconds into the day.
    assert_eq!(next_delay_until_target_utc(0, 20, 32, 0), 73920);
}

#[test]
fn delay_when_now_is_exactly_the_target_is_a_full_day() {
    // The target instant must be strictly in the future.
    assert_eq!(next_delay_until_target_utc(73920, 20, 32, 0), SECONDS_PER_DAY);
}

#[test]
fn delay_just_after_the_target_wraps_to_tomorrow() {
    assert_eq!(next_delay_until_target_utc(73921, 20, 32, 0), SECONDS_PER_DAY - 1);
}

#[test]
fn delay_at_target_midnight_from_midnight() {
    assert_eq!(next_delay_until_target_utc(0, 0, 0, 0), SECONDS_PER_DAY);
}

#[test]
fn delay_lands_on_the_target_time_of_day() {
    // 1_700_000_000 is 80_000 seconds into its UTC day.
    let now: u64 = 1_700_000_000;
    let d = next_delay_until_target_utc(now, 20, 32, 0);
    assert_eq!(d, 80320);
    assert_eq!((now + d) % SECONDS_PER_DAY, 73920);
    assert!(d >= 1);
    assert!(d <= SECONDS_PER_DAY);
}

#[test]
fn delay_is_always_positive_and_at_most_one_day() {
    let samples: [u64; 5] = [0, 1, 86399, 86400, 1_700_000_123];
    for &now in samples.iter() {
        let d = next_delay_until_target_utc(now, 2, 17, 0);
        assert!(d >= 1);
        assert!(d <= SECONDS_PER_DAY);
        assert_eq!((now + d) % SECONDS_PER_DAY, 2 * 3600 + 17 * 60);
    }
}

#[test]
fn clamp_keeps_nonnegative_clock_readings() {
    assert_eq!(clamp_timestamp(7), 7);
    assert_eq!(clamp_timestamp(0), 0);
}

#[test]
fn clamp_maps_pre_epoch_clock_readings_to_zero() {
    assert_eq!(clamp_timestamp(-5), 0);
    assert_eq!(clamp_timestamp(i64::MIN), 0);
}
