use ststat::milli::Milli;
use ststat::ohw::{MyNode, OHWNode};
use ststat::process::RawCounterRow;
use ststat::timing::CurrentStep;
use ststat::samplers::{
    cpu_core_temps, max_abs_of, BatterySampler, GpuSampler, MemorySampler, MyNetworkData,
    NetworkSampler, PingSampler, SourceSamplers, RefreshInputs,
};
use ststat::telemetry::{GpuStaticInfo, SharedTelemetryState};

fn node(text: &str, image: &str, value: &str, children: Vec<OHWNode>) -> OHWNode {
    OHWNode {
        Children: children,
        ImageURL: image.to_string(),
        Max: String::new(),
        Min: String::new(),
        Text: text.to_string(),
        Value: value.to_string(),
        id: 0,
    }
}

/// A three-level synthetic tree:
/// root
/// ├─ Computer          (children: Sensors, Fans, Load)
/// │  ├─ Sensors  +icon.png
/// │  ├─ Fan Speeds
/// │  └─ Load Average   value "12 W"
/// └─ Other
fn sample_tree() -> OHWNode {
    let sensors = node("Sensors", "icon.png", "", vec![node("Inner", "", "45,5 °C", vec![])]);
    let fans = node("Fan Speeds", "fan.png", "", vec![]);
    let load = node("Load Average", "", "12 W", vec![]);
    let computer = node("Computer", "computer.png", "", vec![sensors, fans, load]);
    let other = node("Other", "", "", vec![]);
    node("root", "", "", vec![computer, other])
}

#[test]
fn select_by_position_picks_third_child() {
    let t = sample_tree();
    let picked = t.select("#0|#2").expect("third child of first child");
    assert_eq!(picked.Text, "Load Average");
}

#[test]
fn select_by_image_url_matches_exactly() {
    let t = sample_tree();
    let picked = t.select("#0|+icon.png").expect("icon child");
    assert_eq!(picked.Text, "Sensors");
    assert!(t.select("#0|+icon").is_none());
}

#[test]
fn select_by_label_is_case_insensitive_substring() {
    let t = sample_tree();
    let picked = t.select("#0|fan").expect("label substring");
    assert_eq!(picked.Text, "Fan Speeds");
    let picked = t.select("computer|LOAD").expect("case folded");
    assert_eq!(picked.Text, "Load Average");
}

#[test]
fn select_short_circuits_on_missing_node() {
    let t = sample_tree();
    assert!(t.select("a|b|c").is_none());
    assert!(t.select("Computer|missing|Inner").is_none());
    assert_eq!(t.parse_value_path_def("a|b|c").thousandths, 0);
    let absent: Option<OHWNode> = None;
    assert!(absent.select("Computer").is_none());
    assert_eq!(absent.parse_value_path_def("Computer").thousandths, 0);
}

#[test]
fn select_empty_segment_matches_first_child() {
    // an empty label segment is contained in every label
    let t = sample_tree();
    assert_eq!(t.select("").expect("first child").Text, "Computer");
    let leafless = node("leaf", "", "", vec![]);
    assert!(leafless.select("").is_none());
}

#[test]
fn timing_steps_recorded_only_while_tracing() {
    let mut s = SourceSamplers::new();
    s.step_timing(CurrentStep::Begin, 55);
    let v = s.timing.buffer.read();
    assert_eq!(v[v.len() - 1].time_micros, 0);
    s.timing.track_timings = true;
    s.step_timing(CurrentStep::Update, 77);
    let v = s.timing.buffer.read();
    assert_eq!(v.len(), 2000);
    assert_eq!(v[v.len() - 1].step, CurrentStep::Update);
    assert_eq!(v[v.len() - 1].time_micros, 77);
}

#[test]
fn record_ping_delegates_to_ping_buffer() {
    let mut s = SourceSamplers::new();
    s.record_ping(Some(17));
    s.record_ping(None);
    let v = s.ping.buffer.read();
    assert_eq!(v[v.len() - 1], 17);
}

#[test]
fn select_out_of_range_or_bad_index_fails() {
    let t = sample_tree();
    assert!(t.select("#7").is_none());
    assert!(t.select("#x").is_none());
    assert!(t.select("#0|#2|#0").is_none());
}

#[test]
fn parse_value_path_normalizes_units() {
    let t = sample_tree();
    assert_eq!(t.parse_value_path_def("#0|+icon.png|Inner").thousandths, 45_500);
    assert_eq!(t.parse_value_path_def("#0|Load").thousandths, 12_000);
    let v = t.parse_value_path("#0|Fan");
    assert_eq!(v, Some(Milli { thousandths: 0 }));
    assert_eq!(t.parse_value_path("nowhere"), None);
}

fn cpu_tree() -> OHWNode {
    let cores = vec![
        node("CPU Core #1", "", "41,0 °C", vec![]),
        node("CPU Core #2", "", "-47,5 °C", vec![]),
        node("Bus Speed", "", "100 MHz", vec![]),
    ];
    let temps = node("Temperatures", "", "", cores);
    let power = node("Package", "", "23,5 W", vec![]);
    let powers = node("Power", "", "", vec![power]);
    let cpu = node("My CPU", "images_icon/cpu.png", "", vec![temps, powers]);
    let machine = node("MACHINE", "computer.png", "", vec![cpu]);
    node("root", "", "", vec![machine])
}

#[test]
fn core_temps_read_by_label_pattern() {
    let tree = Some(cpu_tree());
    let temps = cpu_core_temps(&tree);
    assert_eq!(temps.len(), 2);
    assert_eq!(temps[0].thousandths, 41_000);
    assert_eq!(temps[1].thousandths, -47_500);
    let max = max_abs_of(&temps);
    assert_eq!(max.thousandths, -47_500);
    assert_eq!(cpu_core_temps(&None).len(), 0);
}

#[test]
fn cpu_refresh_fills_buffers_and_max_power() {
    let mut samplers = SourceSamplers::new();
    let mut shared = SharedTelemetryState::new();
    shared.set_hardware_tree(Some(cpu_tree()));
    samplers.cpu.refresh_cpu(&mut shared, Milli { thousandths: 37_000 });
    let usage = samplers.cpu.usage_buffer.read();
    assert_eq!(usage[usage.len() - 1].thousandths, 37_000);
    let temps = samplers.cpu.max_temp_buffer.read();
    assert_eq!(temps[temps.len() - 1].thousandths, -47_500);
    let power = samplers.cpu.power_buffer.read();
    assert_eq!(power[power.len() - 1].thousandths, 23_500);
    assert_eq!(shared.max_observed_cpu_power.thousandths, 23_500);
}

#[test]
fn ping_skips_on_timeout() {
    let mut p = PingSampler::new();
    p.record_ping(Some(23));
    p.record_ping(None);
    let v = p.buffer.read();
    assert_eq!(v[v.len() - 1], 23);
    assert_eq!(v.iter().filter(|&&x| x == 23).count(), 1);
}

#[test]
fn filter_networks_gates_and_registers() {
    let mut n = NetworkSampler::new();
    n.toggles.push(("eth0".to_string(), true));
    let observed = vec![
        ("eth0".to_string(), MyNetworkData { tx: 10, rx: 20 }),
        ("wlan0".to_string(), MyNetworkData { tx: 1, rx: 2 }),
    ];
    let enabled = n.filter_networks(&observed);
    assert_eq!(enabled.len(), 1);
    assert_eq!(enabled[0].0, "eth0");
    assert_eq!(enabled[0].1, MyNetworkData { tx: 10, rx: 20 });
    assert_eq!(n.toggles.len(), 2);
    assert_eq!(n.toggles[1], ("wlan0".to_string(), false));
}

#[test]
fn refresh_networks_creates_buffers_lazily() {
    let mut n = NetworkSampler::new();
    n.toggles.push(("eth0".to_string(), true));
    let observed = vec![
        ("eth0".to_string(), MyNetworkData { tx: 10, rx: 20 }),
        ("wlan0".to_string(), MyNetworkData { tx: 1, rx: 2 }),
    ];
    n.refresh_networks(&observed);
    assert_eq!(n.down_buffers.len(), 1);
    assert_eq!(n.up_buffers.len(), 1);
    let down = n.down_buffers[0].1.read();
    assert_eq!(down[down.len() - 1], 20);
    let up = n.up_buffers[0].1.read();
    assert_eq!(up[up.len() - 1], 10);
    // a second tick rotates into the same buffer
    n.refresh_networks(&observed);
    assert_eq!(n.down_buffers.len(), 1);
    let down = n.down_buffers[0].1.read();
    assert_eq!(&down[down.len() - 2..], &[20, 20]);
}

#[test]
fn disk_readings_keyed_by_mount_point() {
    let mut samplers = SourceSamplers::new();
    let readings = vec![
        ("C:".to_string(), Milli { thousandths: 12_500 }),
        ("D:".to_string(), Milli { thousandths: 1_000 }),
    ];
    samplers.disk.refresh_disk_io_time(&readings);
    assert_eq!(samplers.disk.buffers.len(), 2);
    assert_eq!(samplers.disk.buffers[0].0, "C:");
    let c = samplers.disk.buffers[0].1.read();
    assert_eq!(c[c.len() - 1].thousandths, 12_500);
}

fn memory_tree() -> OHWNode {
    let used = node("Memory Used", "", "3,5 GB", vec![]);
    let avail = node("Memory Available", "", "12,5 GB", vec![]);
    let data = node("Data", "", "", vec![used, avail]);
    let memory = node("Generic Memory", "ram.png", "", vec![data]);
    let machine = node("MACHINE", "computer.png", "", vec![memory]);
    node("root", "", "", vec![machine])
}

#[test]
fn memory_refresh_caches_total_and_pushes_ratio() {
    let mut m = MemorySampler::new();
    let mut shared = SharedTelemetryState::new();
    shared.set_hardware_tree(Some(memory_tree()));
    m.refresh_system_memory(&mut shared);
    let gib: i64 = 1 << 30;
    assert_eq!(shared.current_ram, 3 * gib + gib / 2);
    assert_eq!(shared.total_ram, 16 * gib);
    let r = m.ram_buffer.read();
    // 3.5 / 16 = 0.21875 -> 218 permille rounded toward zero
    assert_eq!(r[r.len() - 1], 218);
}

fn gpu_tree() -> OHWNode {
    let gpu = node(
        "My GPU",
        "images_icon/nvidia.png",
        "",
        vec![
            node("Temperatures", "", "", vec![node("GPU Core", "", "62 °C", vec![])]),
            node("Powers", "", "", vec![node("GPU Power", "", "110,5 W", vec![])]),
            node(
                "Data",
                "",
                "",
                vec![
                    node("Memory Free", "", "2048 MB", vec![]),
                    node("Memory Used", "", "6144 MB", vec![]),
                    node("Memory Total", "", "8192 MB", vec![]),
                ],
            ),
            node("Controls", "", "", vec![node("Fan", "", "35 %", vec![])]),
            node("Load", "", "", vec![node("GPU Core Load", "", "87 %", vec![])]),
            node("Clocks", "", "", vec![node("GPU Core Clock", "", "1850 MHz", vec![])]),
        ],
    );
    let machine = node("MACHINE", "computer.png", "", vec![gpu]);
    node("root", "", "", vec![machine])
}

#[test]
fn gpu_refresh_reads_tree_and_caches_static_info() {
    let mut g = GpuSampler::new();
    let mut shared = SharedTelemetryState::new();
    shared.set_hardware_tree(Some(gpu_tree()));
    let fallback = GpuStaticInfo {
        power_limit: Milli { thousandths: 220_000 },
        max_clock: Milli { thousandths: 2_100_000 },
    };
    g.refresh_gpu(&mut shared, fallback);
    let latest = g.latest.expect("gpu data");
    assert_eq!(latest.utilization.thousandths, 87_000);
    assert_eq!(latest.temperature.thousandths, 62_000);
    assert_eq!(latest.memory_used, 6144 * 1024 * 1024);
    assert_eq!(latest.memory_total, 8192 * 1024 * 1024);
    assert_eq!(latest.power_usage.thousandths, 110_500);
    assert_eq!(latest.power_limit.thousandths, 220_000);
    assert_eq!(shared.gpu_static, Some(fallback));
    let mem = g.mem_buffer.read();
    assert_eq!(mem[mem.len() - 1], 750);
    let pow = g.power_buffer.read();
    // 110.5 / 220 = 0.50227... -> 502 permille
    assert_eq!(pow[pow.len() - 1], 502);
    // the cached limits win over a later fallback
    let other = GpuStaticInfo {
        power_limit: Milli { thousandths: 1 },
        max_clock: Milli { thousandths: 1 },
    };
    g.refresh_gpu(&mut shared, other);
    assert_eq!(g.latest.unwrap().power_limit.thousandths, 220_000);
}

fn battery_tree(level: &str, discharge: &str, charge: &str) -> OHWNode {
    let batt = node(
        "Battery",
        "images_icon/battery.png",
        "",
        vec![
            node("Charge Levels", "", "", vec![node("Charge Level", "", level, vec![])]),
            // the charge row sits before the discharge row: every label
            // containing "discharge" also contains "charge" as a substring
            node(
                "Currents",
                "",
                "",
                vec![
                    node("Charge Current", "", charge, vec![]),
                    node("Discharge Current", "", discharge, vec![]),
                ],
            ),
        ],
    );
    let machine = node("MACHINE", "computer.png", "", vec![batt]);
    node("root", "", "", vec![machine])
}

#[test]
fn battery_discharge_is_negated_and_level_minute_gated() {
    let mut b = BatterySampler::new();
    let tree = Some(battery_tree("84 %", "1,5", "0"));
    b.refresh_battery(&tree, 5_000);
    assert!(b.enabled);
    let change = b.change_buffer.read();
    assert_eq!(change[change.len() - 1].thousandths, -1_500);
    let level = b.level_buffer.read();
    assert_eq!(level[level.len() - 1].thousandths, 84_000);
    assert_eq!(b.level_next_update, 60_000);
    // within the same minute the level is not sampled again
    b.refresh_battery(&tree, 6_000);
    let level = b.level_buffer.read();
    assert_eq!(level[level.len() - 2].thousandths, 0);
    // past the minute boundary it is
    b.refresh_battery(&tree, 60_001);
    let level = b.level_buffer.read();
    assert_eq!(level[level.len() - 2..].iter().map(|m| m.thousandths).collect::<Vec<_>>(), vec![
        84_000,
        84_000,
    ]);
}

#[test]
fn battery_absent_means_no_samples() {
    let mut b = BatterySampler::new();
    b.refresh_battery(&None, 5_000);
    assert!(!b.enabled);
    let tree = Some(battery_tree("0", "1", "1"));
    b.refresh_battery(&tree, 5_000);
    assert!(!b.enabled);
}

#[test]
fn battery_charging_uses_charge_current() {
    let mut b = BatterySampler::new();
    let tree = Some(battery_tree("50 %", "0", "2,25"));
    b.refresh_battery(&tree, 1_000);
    let change = b.change_buffer.read();
    assert_eq!(change[change.len() - 1].thousandths, 2_250);
}

#[test]
fn full_refresh_runs_all_samplers_in_order() {
    let mut samplers = SourceSamplers::new();
    let mut shared = SharedTelemetryState::new();
    shared.set_hardware_tree(Some(cpu_tree()));
    samplers.network.toggles.push(("eth0".to_string(), true));
    let inputs = RefreshInputs {
        global_cpu_usage: Milli { thousandths: 42_000 },
        gpu_present: false,
        gpu_fallback: GpuStaticInfo {
            power_limit: Milli { thousandths: 0 },
            max_clock: Milli { thousandths: 0 },
        },
        networks: vec![("eth0".to_string(), MyNetworkData { tx: 5, rx: 6 })],
        disk_readings: vec![("C:".to_string(), Milli { thousandths: 7_000 })],
        cpu_rows: vec![
            RawCounterRow { name: "svc:1".to_string(), value: 4_000 },
            RawCounterRow { name: "svc:2".to_string(), value: 6_000 },
        ],
        ram_rows: vec![
            RawCounterRow { name: "svc:1".to_string(), value: 100 },
            RawCounterRow { name: "svc:2".to_string(), value: 200 },
        ],
        now_millis: 1_500,
    };
    samplers.refresh(&mut shared, &inputs);
    let usage = samplers.cpu.usage_buffer.read();
    assert_eq!(usage[usage.len() - 1].thousandths, 42_000);
    assert!(samplers.gpu.latest.is_none());
    assert_eq!(samplers.procs.processes.len(), 1);
    assert_eq!(samplers.procs.processes[0].name, "svc");
    assert_eq!(samplers.procs.processes[0].cpu.thousandths, 10_000);
    assert_eq!(samplers.procs.processes[0].memory, 300);
    assert_eq!(samplers.disk.buffers.len(), 1);
    assert_eq!(samplers.network.down_buffers.len(), 1);
    assert_eq!(shared.max_observed_cpu_power.thousandths, 23_500);
}
