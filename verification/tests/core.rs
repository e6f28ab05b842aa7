use ststat::bytes_format::format_bytes;
use ststat::circlevec::CircleVec;
use ststat::color::darken;
use ststat::milli::{parse_sensor_value, ratio_permille, Milli};
use ststat::process::{
    aggregate_process_rows, disk_counter_path, init_process_metrics, process_cpu_counter_path,
    process_ram_counter_path, RawCounterRow,
};
use ststat::sched::{background_sleep_millis, millis_until_next_second, RefreshScheduler};
use ststat::telemetry::SharedTelemetryState;
use ststat::text::u64_to_string;
use ststat::timing::timing_to_str;

#[test]
fn buffer_rotation_returns_most_recent_in_order() {
    let mut b: CircleVec<i64> = CircleVec::new(3, 0);
    b.add(1);
    b.add(2);
    b.add(3);
    b.add(4);
    b.add(5);
    assert_eq!(b.read(), vec![3, 4, 5]);
}

#[test]
fn buffer_prefill_returns_defaults_before_any_add() {
    let b: CircleVec<i64> = CircleVec::new(4, 0);
    assert_eq!(b.read(), vec![0, 0, 0, 0]);
    let c: CircleVec<u64> = CircleVec::new(1, 7);
    assert_eq!(c.read(), vec![7]);
}

#[test]
fn buffer_partial_fill_keeps_leading_defaults() {
    let mut b: CircleVec<i64> = CircleVec::new(4, 0);
    b.add(9);
    b.add(8);
    assert_eq!(b.read(), vec![0, 0, 9, 8]);
    assert_eq!(b.capacity(), 4);
}

#[test]
fn scheduler_fires_once_per_second_boundary() {
    let mut s = RefreshScheduler::new();
    let frames = [
        (500i64, true),
        (800, false),
        (1100, true),
        (1400, false),
        (1700, false),
        (2000, false),
        (2300, true),
        (2600, false),
        (2900, false),
        (3200, true),
    ];
    for (now, expected) in frames {
        assert_eq!(s.tick(now), expected, "frame at {now}");
    }
}

#[test]
fn scheduler_first_frame_fires_and_aligns() {
    let mut s = RefreshScheduler::new();
    assert!(s.tick(1));
    assert_eq!(s.next_update_millis, 1000);
    assert!(!s.tick(1000));
    assert!(s.tick(1001));
    assert_eq!(s.next_update_millis, 2000);
}

#[test]
fn background_sleep_is_clamped() {
    assert_eq!(background_sleep_millis(0, 1000), 1000);
    assert_eq!(background_sleep_millis(0, 999), 999);
    assert_eq!(background_sleep_millis(1400, 999), 600);
    // a near-boundary remainder is clamped up so the loop cannot spin
    assert_eq!(background_sleep_millis(1700, 999), 520);
    assert_eq!(background_sleep_millis(1990, 999), 520);
    assert_eq!(millis_until_next_second(1700), 300);
    assert_eq!(millis_until_next_second(2000), 1000);
}

#[test]
fn stale_on_failure_clears_snapshot() {
    let tree = ststat::ohw::OHWNode {
        Children: Vec::new(),
        ImageURL: String::new(),
        Max: String::new(),
        Min: String::new(),
        Text: "root".to_string(),
        Value: String::new(),
        id: 0,
    };
    let mut st = SharedTelemetryState::new();
    st.set_hardware_tree(Some(tree));
    assert!(st.latest_hardware_tree.is_some());
    st.set_hardware_tree(None);
    st.set_hardware_tree(None);
    assert!(st.latest_hardware_tree.is_none());
}

#[test]
fn max_cpu_power_never_decreases() {
    let mut st = SharedTelemetryState::new();
    st.observe_cpu_power(Milli { thousandths: 45_000 });
    st.observe_cpu_power(Milli { thousandths: 12_000 });
    assert_eq!(st.max_observed_cpu_power.thousandths, 45_000);
    st.observe_cpu_power(Milli { thousandths: 80_500 });
    assert_eq!(st.max_observed_cpu_power.thousandths, 80_500);
}

#[test]
fn memory_total_cached_on_first_nonzero() {
    let mut st = SharedTelemetryState::new();
    st.observe_memory(100, 0);
    assert_eq!(st.total_ram, 0);
    st.observe_memory(120, 16_000);
    assert_eq!(st.total_ram, 16_000);
    st.observe_memory(130, 99_999);
    assert_eq!(st.current_ram, 130);
    assert_eq!(st.total_ram, 16_000);
}

#[test]
fn process_aggregation_groups_and_excludes_idle() {
    let cpu_rows = vec![
        RawCounterRow { name: "app:1".to_string(), value: 10_000 },
        RawCounterRow { name: "app:2".to_string(), value: 5_000 },
        RawCounterRow { name: "Idle".to_string(), value: 50_000 },
    ];
    let ram_rows = vec![
        RawCounterRow { name: "app:1".to_string(), value: 1_000 },
        RawCounterRow { name: "app:2".to_string(), value: 2_000 },
        RawCounterRow { name: "Idle".to_string(), value: 9_000 },
    ];
    let out = aggregate_process_rows(&cpu_rows, &ram_rows);
    assert_eq!(out.len(), 1);
    assert_eq!(out[0].name, "app");
    assert_eq!(out[0].cpu.thousandths, 15_000);
    assert_eq!(out[0].memory, 3_000);
    assert_eq!(out[0].count, 2);
}

#[test]
fn process_aggregation_excludes_total_and_keeps_order() {
    let cpu_rows = vec![
        RawCounterRow { name: "b".to_string(), value: 1 },
        RawCounterRow { name: "_Total".to_string(), value: 100 },
        RawCounterRow { name: "a".to_string(), value: 2 },
        RawCounterRow { name: "b:1".to_string(), value: 3 },
    ];
    let ram_rows = vec![
        RawCounterRow { name: "b".to_string(), value: 10 },
        RawCounterRow { name: "_Total".to_string(), value: 100 },
        RawCounterRow { name: "a".to_string(), value: 20 },
        RawCounterRow { name: "b:1".to_string(), value: 30 },
    ];
    let out = aggregate_process_rows(&cpu_rows, &ram_rows);
    assert_eq!(out.len(), 2);
    assert_eq!(out[0].name, "b");
    assert_eq!(out[0].cpu.thousandths, 4);
    assert_eq!(out[0].memory, 40);
    assert_eq!(out[0].count, 2);
    assert_eq!(out[1].name, "a");
    assert_eq!(out[1].cpu.thousandths, 2);
    assert_eq!(out[1].count, 1);
}

#[test]
fn counter_paths_are_fixed() {
    assert_eq!(process_cpu_counter_path(), "\\Process V2(*)\\% Processor Time");
    assert_eq!(process_ram_counter_path(), "\\Process V2(*)\\Working Set");
    assert_eq!(disk_counter_path("C:"), "\\LogicalDisk(C:)\\% Disk Time");
    let h = init_process_metrics(11, 22);
    assert_eq!(h.cpu_handle, 11);
    assert_eq!(h.ram_handle, 22);
}

#[test]
fn format_bytes_picks_units_and_one_decimal() {
    assert_eq!(format_bytes(0), "0 B");
    assert_eq!(format_bytes(512), "512 B");
    assert_eq!(format_bytes(1023), "1023 B");
    assert_eq!(format_bytes(1024), "1.0 KB");
    assert_eq!(format_bytes(9 * 1024 + 512), "9.5 KB");
    assert_eq!(format_bytes(10 * 1024), "10 KB");
    assert_eq!(format_bytes(640 * 1024 * 1024), "640 MB");
    assert_eq!(format_bytes(3 * 1024 * 1024 * 1024 + 512 * 1024 * 1024), "3.5 GB");
    // fractions round toward zero
    assert_eq!(format_bytes(u64::MAX), "15 EB");
}

#[test]
fn u64_to_string_prints_decimal() {
    assert_eq!(u64_to_string(0), "0");
    assert_eq!(u64_to_string(7), "7");
    assert_eq!(u64_to_string(1234567890), "1234567890");
    assert_eq!(u64_to_string(u64::MAX), "18446744073709551615");
}

#[test]
fn timing_to_str_appends_only_when_tracing() {
    let mut s = String::from("x");
    timing_to_str(125, &mut s, false);
    assert_eq!(s, "x");
    timing_to_str(125, &mut s, true);
    assert_eq!(s, "x125\n");
}

#[test]
fn darken_scales_to_two_fifths() {
    assert_eq!(darken(0), 0);
    assert_eq!(darken(10), 4);
    assert_eq!(darken(255), 102);
}

#[test]
fn ratio_permille_handles_zero_total() {
    assert_eq!(ratio_permille(512, 1024), 500);
    assert_eq!(ratio_permille(1, 0), 0);
    assert_eq!(ratio_permille(3, 4), 750);
}

#[test]
fn sensor_parse_basic_values() {
    assert_eq!(parse_sensor_value("45,5 °C").thousandths, 45_500);
    assert_eq!(parse_sensor_value("12 W").thousandths, 12_000);
    assert_eq!(parse_sensor_value("").thousandths, 0);
    assert_eq!(parse_sensor_value("n/a").thousandths, 0);
}
