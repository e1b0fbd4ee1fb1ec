use dolly::timebase::qpc_to_100ns;

#[test]
fn qpc_conversion_survives_long_uptime() {
    // 30 days of uptime at 10 MHz: qpc * 1e7 would overflow i64.
    let freq = 10_000_000;
    let qpc = 30 * 24 * 3600 * freq;
    assert_eq!(qpc_to_100ns(qpc, freq), 30 * 24 * 3600 * 10_000_000);
}

#[test]
fn odd_frequencies_convert_exactly() {
    // One full second of ticks at 3.579545 MHz is exactly one second.
    let freq = 3_579_545;
    assert_eq!(qpc_to_100ns(freq, freq), 10_000_000);
}

#[test]
fn qpc_conversion_truncates_toward_zero() {
    // 1 tick at 3 Hz is 3_333_333.33.. units: the fraction is dropped.
    assert_eq!(qpc_to_100ns(1, 3), 3_333_333);
    assert_eq!(qpc_to_100ns(-1, 3), -3_333_333);
    assert_eq!(qpc_to_100ns(1, -3), -3_333_333);
    assert_eq!(qpc_to_100ns(-1, -3), 3_333_333);
}

#[test]
fn whole_seconds_convert_exactly_at_any_frequency() {
    for freq in [1i64, 3, 1_000, 3_579_545, 10_000_000, 24_000_000, -7] {
        for seconds in [0i64, 1, 2, 59, 3600] {
            assert_eq!(qpc_to_100ns(seconds * freq, freq), seconds * 10_000_000);
        }
    }
}
