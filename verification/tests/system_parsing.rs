use cloakynode::models::ThrottleFlags;
use cloakynode::system::{
    decode_throttled, disk_usage, epoch_millis, hostname_from, leading_fields, parse_clock_output,
    parse_cpu_snapshot, parse_cpu_snapshot_checked, parse_meminfo, parse_meminfo_checked,
    parse_network_stats, parse_throttled_output, proc_pid, temp_output_value, unix_now_ms,
    volts_output_value,
};

fn parse_loadavg(raw: &str) -> Result<(f32, f32), String> {
    let fields = leading_fields(raw, 2);
    let one = fields
        .first()
        .ok_or_else(|| "loadavg 1 missing".to_string())?
        .parse::<f32>()
        .map_err(|error| error.to_string())?;
    let five = fields
        .get(1)
        .ok_or_else(|| "loadavg 5 missing".to_string())?
        .parse::<f32>()
        .map_err(|error| error.to_string())?;
    Ok((one, five))
}

fn parse_temp_output(raw: &str) -> Option<f32> {
    temp_output_value(raw)?.parse().ok()
}

fn parse_volts_output(raw: &str) -> Option<f32> {
    volts_output_value(raw)?.parse().ok()
}

#[test]
fn main_parses_meminfo() {
    let mem = parse_meminfo(
        "MemTotal:        947952 kB\nMemFree:          73348 kB\nMemAvailable:    531140 kB\n",
    )
    .expect("meminfo should parse");

    assert_eq!(mem.total_bytes, 947952 * 1024);
    assert_eq!(mem.used_bytes, (947952 - 531140) * 1024);
}

#[test]
fn system_parses_meminfo() {
    let mem = parse_meminfo(
        "MemTotal:        947952 kB\nMemFree:          73348 kB\nMemAvailable:    531140 kB\nBuffers:          32768 kB\nCached:          128000 kB\nShmem:            16384 kB\nSwapTotal:       524288 kB\nSwapFree:        524224 kB\n",
    )
    .expect("meminfo should parse");

    assert_eq!(mem.total_bytes, 947_952 * 1024);
    assert_eq!(mem.used_bytes, (947_952 - 531_140) * 1024);
    assert_eq!(mem.buffers_bytes, 32_768 * 1024);
    assert_eq!(mem.cached_bytes, 128_000 * 1024);
    assert_eq!(mem.shared_bytes, 16_384 * 1024);
    assert_eq!(mem.swap_total_bytes, 524_288 * 1024);
    assert_eq!(mem.swap_used_bytes, 64 * 1024);
}

#[test]
fn parses_network_stats() {
    let raw = "Inter-|   Receive                                                |  Transmit\n face |bytes    packets errs drop fifo frame compressed multicast|bytes    packets errs drop fifo colls carrier compressed\n  eth0: 1234567   8901    0    0    0     0          0         0 9876543   4321    0    0    0     0       0          0\n    lo:       0       0    0    0    0     0          0         0        0       0    0    0    0       0          0\n";
    let interfaces = parse_network_stats(raw).expect("network stats should parse");
    assert_eq!(interfaces.len(), 1);
    assert_eq!(interfaces[0].name, "eth0");
    assert_eq!(interfaces[0].rx_bytes, 1_234_567);
    assert_eq!(interfaces[0].tx_bytes, 9_876_543);
}

#[test]
fn main_parses_loadavg() {
    let load = parse_loadavg("0.42 0.67 0.80 1/301 1234\n").expect("loadavg should parse");
    assert_eq!(load, (0.42, 0.67));
}

#[test]
fn system_parses_loadavg() {
    let load = parse_loadavg("0.42 0.67 0.80 1/301 1234\n").expect("loadavg should parse");
    assert_eq!(load, (0.42, 0.67));
}

#[test]
fn main_parses_cpu_snapshot() {
    let stats = parse_cpu_snapshot(
        "cpu  2255 34 2290 22625563 6290 127 456\ncpu0 1132 17 1441 11311771 3675 127 438\ncpu1 1123 17 849 11313792 2614 0 18\nintr 123\n",
    )
    .expect("cpu snapshot should parse");

    assert_eq!(stats.len(), 3);
    assert_eq!(stats[0].idle, 22625563 + 6290);
}

#[test]
fn system_parses_cpu_snapshot() {
    let stats = parse_cpu_snapshot(
        "cpu  2255 34 2290 22625563 6290 127 456\ncpu0 1132 17 1441 11311771 3675 127 438\ncpu1 1123 17 849 11313792 2614 0 18\nintr 123\n",
    )
    .expect("cpu snapshot should parse");

    assert_eq!(stats.len(), 3);
    assert_eq!(stats[0].idle, 22_625_563 + 6290);
}

#[test]
fn main_decodes_throttled_flags() {
    let flags = decode_throttled(Some(0x50005));
    assert!(flags.under_voltage_now);
    assert!(flags.throttled_now);
    assert!(flags.under_voltage_past);
    assert!(flags.throttled_past);
    assert!(!flags.freq_capped_now);
}

#[test]
fn system_decodes_throttled_flags() {
    let flags = decode_throttled(Some(0x50005));
    assert!(flags.under_voltage_now);
    assert!(flags.throttled_now);
    assert!(flags.under_voltage_past);
    assert!(flags.throttled_past);
    assert!(!flags.freq_capped_now);
}

#[test]
fn main_parses_vcgencmd_outputs() {
    assert_eq!(parse_temp_output("temp=48.7'C\n"), Some(48.7));
    assert_eq!(parse_volts_output("volt=1.2000V\n"), Some(1.2));
    assert_eq!(
        parse_clock_output("frequency(48)=1500000000\n"),
        Some(1_500_000_000)
    );
    assert_eq!(parse_throttled_output("throttled=0x50005\n"), Some(0x50005));
}

#[test]
fn system_parses_vcgencmd_outputs() {
    assert_eq!(parse_temp_output("temp=48.7'C\n"), Some(48.7));
    assert_eq!(parse_volts_output("volt=1.2000V\n"), Some(1.2));
    assert_eq!(
        parse_clock_output("frequency(48)=1500000000\n"),
        Some(1_500_000_000)
    );
    assert_eq!(parse_throttled_output("throttled=0x50005\n"), Some(0x50005));
}

#[test]
fn cpu_snapshot_reports_std_parse_errors() {
    let invalid = parse_cpu_snapshot("cpu 1 2 x 4\n").unwrap_err();
    assert_eq!(invalid, "x".parse::<u64>().unwrap_err().to_string());
    assert_eq!(invalid, "invalid digit found in string");
    let too_large = parse_cpu_snapshot("cpu 1 2 3 99999999999999999999\n").unwrap_err();
    assert_eq!(too_large, "99999999999999999999".parse::<u64>().unwrap_err().to_string());
    assert_eq!(too_large, "number too large to fit in target type");
    assert_eq!(
        "".parse::<u64>().unwrap_err().to_string(),
        "cannot parse integer from empty string"
    );
}

#[test]
fn cpu_snapshot_without_counters_is_an_error() {
    assert_eq!(parse_cpu_snapshot("intr 1 2 3\ncpu 1 2 3 4\n").unwrap_err(), "missing cpu counters");
    assert_eq!(parse_cpu_snapshot("").unwrap_err(), "missing cpu counters");
    assert_eq!(parse_cpu_snapshot("cpu 1 2 3\n").unwrap_err(), "missing cpu counters");
}

#[test]
fn cpu_snapshot_reads_at_most_ten_counters() {
    let stats = parse_cpu_snapshot("cpu 1 1 1 1 1 1 1 1 1 1 junk\ncpu0 1 2 3 4\n").unwrap();
    assert_eq!(stats.len(), 2);
    assert_eq!(stats[0].total, 10);
    assert_eq!(stats[0].idle, 2);
    assert_eq!(stats[1].idle, 4);
    assert_eq!(stats[1].total, 10);
}

#[test]
fn cpu_snapshot_overflow_is_reported() {
    let max = u64::MAX.to_string();
    let raw = format!("cpu 1 1 1 {max} 1\n");
    assert!(parse_cpu_snapshot_checked(&raw).is_none());
    assert!(parse_cpu_snapshot_checked("cpu 1 2 3 4\n").is_some());
}

#[test]
fn meminfo_missing_fields_are_errors() {
    assert_eq!(parse_meminfo("MemAvailable: 5 kB\n").unwrap_err(), "MemTotal missing");
    assert_eq!(parse_meminfo("MemTotal: 5 kB\n").unwrap_err(), "MemAvailable missing");
    assert_eq!(
        parse_meminfo("MemTotal: 5 kB\nMemAvailable: 1 kB\nMemTotal: bad kB\n").unwrap_err(),
        "MemTotal missing"
    );
}

#[test]
fn meminfo_used_is_never_negative() {
    let mem = parse_meminfo("MemTotal: 5 kB\nMemAvailable: 9 kB\nSwapTotal: 1 kB\nSwapFree: 7 kB\n")
        .unwrap();
    assert_eq!(mem.total_bytes, 5 * 1024);
    assert_eq!(mem.used_bytes, 0);
    assert_eq!(mem.swap_used_bytes, 0);
    assert_eq!(mem.buffers_bytes, 0);
}

#[test]
fn meminfo_overflow_is_reported() {
    let raw = format!("MemTotal: {} kB\nMemAvailable: 1 kB\n", u64::MAX);
    assert!(parse_meminfo_checked(&raw).is_none());
}

#[test]
fn network_stats_pass_over_lines_without_interface() {
    let raw = "h1\nh2\nnocolon 1 2 3\n : 1 2 3 4 5 6 7 8 9 10 11 12 13 14 15 16\n lo: 1 2\n  eth1: 1 2 0 0 0 0 0 0 7 8 0 0 0 0 0 0\n";
    let interfaces = parse_network_stats(raw).unwrap();
    assert_eq!(interfaces.len(), 1);
    assert_eq!(interfaces[0].name, "eth1");
    assert_eq!(interfaces[0].rx_bytes, 1);
    assert_eq!(interfaces[0].rx_packets, 2);
    assert_eq!(interfaces[0].tx_bytes, 7);
    assert_eq!(interfaces[0].tx_packets, 8);
    assert!(parse_network_stats("only one line").unwrap().is_empty());
}

#[test]
fn network_stats_reject_malformed_lines() {
    let short = "h1\nh2\n  eth0: 1 2 3\n  wlan0: a b c d e f g h i j k l m n o p\n";
    assert_eq!(parse_network_stats(short).unwrap_err(), "too few fields in network stats line");
    let bad = "h1\nh2\n  eth1: 1 2 0 0 0 0 0 0 x 8 0 0 0 0 0 0\n  eth0: 1 2 3\n";
    assert_eq!(parse_network_stats(bad).unwrap_err(), "invalid digit found in string");
    let unused = "h1\nh2\n  eth1: 1 2 z 0 0 0 0 0 7 8 0 0 0 0 0 0\n";
    assert_eq!(parse_network_stats(unused).unwrap()[0].tx_packets, 8);
}

#[test]
fn vcgencmd_outputs_that_do_not_match() {
    assert_eq!(temp_output_value("temp=48.7C"), None);
    assert_eq!(temp_output_value("  temp=48.7'C  ").as_deref(), Some("48.7"));
    assert_eq!(volts_output_value("volt=1.2"), None);
    assert_eq!(volts_output_value("a=1.5V=x").as_deref(), Some("1.5"));
    assert_eq!(volts_output_value("a=1.5=x"), None);
    assert_eq!(parse_clock_output("frequency(48)"), None);
    assert_eq!(parse_clock_output("frequency(48)=+15"), Some(15));
    assert_eq!(parse_clock_output("frequency(48)=1=2"), Some(1));
    assert_eq!(parse_throttled_output("throttled=50005"), Some(0x50005));
    assert_eq!(parse_throttled_output("throttled=0xAbC"), Some(0xabc));
    assert_eq!(parse_throttled_output("throttled=0x100000000"), None);
    assert_eq!(parse_throttled_output("throttled=0xg"), None);
}

#[test]
fn decodes_every_throttle_bit() {
    assert_eq!(decode_throttled(None), ThrottleFlags::default());
    let all = decode_throttled(Some(0x000F_000F));
    assert!(all.under_voltage_now && all.freq_capped_now && all.throttled_now && all.soft_temp_limit_now);
    assert!(all.under_voltage_past && all.freq_capped_past && all.throttled_past && all.soft_temp_limit_past);
    let none = decode_throttled(Some(0xFFF0_FFF0));
    assert_eq!(none, ThrottleFlags::default());
    let soft = decode_throttled(Some(0x8_0008));
    assert!(soft.soft_temp_limit_now && soft.soft_temp_limit_past && !soft.throttled_now);
}

#[test]
fn disk_usage_saturates() {
    let d = disk_usage(4096, 1000, 250);
    assert_eq!(d.total_bytes, 4_096_000);
    assert_eq!(d.used_bytes, 3_072_000);
    let big = disk_usage(u64::MAX, 2, 1);
    assert_eq!(big.total_bytes, u64::MAX);
    assert_eq!(big.used_bytes, 0);
    let odd = disk_usage(10, 1, 5);
    assert_eq!(odd.used_bytes, 0);
}

#[test]
fn hostname_is_trimmed_text() {
    assert_eq!(hostname_from("  pi-zero\n").as_deref(), Some("pi-zero"));
    assert_eq!(hostname_from(" \n\t"), None);
    assert_eq!(hostname_from(""), None);
}

#[test]
fn leading_fields_stop_early() {
    assert_eq!(leading_fields("12.5 33.1\n", 1), vec!["12.5".to_string()]);
    assert_eq!(leading_fields("  ", 2), Vec::<String>::new());
    assert_eq!(leading_fields("a  b c", 2), vec!["a".to_string(), "b".to_string()]);
}

#[test]
fn epoch_milliseconds() {
    assert_eq!(epoch_millis(None), 0);
    assert_eq!(epoch_millis(Some(1_700_000_000_123)), 1_700_000_000_123);
    assert_eq!(epoch_millis(Some(u128::MAX)), u64::MAX);
    assert!(unix_now_ms() > 1_600_000_000_000);
}

#[test]
fn pid_names() {
    assert_eq!(proc_pid("1234"), Some(1234));
    assert_eq!(proc_pid("self"), None);
    assert_eq!(proc_pid("4294967296"), None);
}

#[test]
fn clock_and_throttle_read_back_what_is_written() {
    for n in [0u64, 7, 10, 1_500_000_000, u64::MAX] {
        assert_eq!(parse_clock_output(&format!("frequency(48)={n}\n")), Some(n));
        assert_eq!(parse_clock_output(&format!("  arm={n}")), Some(n));
    }
    for x in [0u32, 0x5, 0x50005, 0xdead_beef, u32::MAX] {
        assert_eq!(parse_throttled_output(&format!("throttled=0x{x:x}\n")), Some(x));
        assert_eq!(parse_throttled_output(&format!("throttled={x:X}")), Some(x));
    }
    assert_eq!(parse_clock_output("frequency(48)"), None);
    assert_eq!(parse_clock_output("frequency(48)=1.5e9"), None);
}
