use std::collections::HashMap;

use cloakynode::collector::{CommandOutcome, Collector};
use cloakynode::config::{host_candidates, resolve_config, ConfigSources};
use cloakynode::dashboard::{index_html, replace_text, INDEX_HTML};
use cloakynode::models::{CpuTimes, ProcessCpuTimes};
use cloakynode::state::RuntimeState;
use cloakynode::system::{
    compute_cpu_usage, cpu_share, parse_process_stat, select_temp_zone, top_processes, CpuShare,
    ProcStat, ZoneEntry,
};

#[derive(Clone, Debug, PartialEq)]
struct Sample {
    timestamp_unix_ms: u64,
}

fn sample(ts: u64) -> Sample {
    Sample { timestamp_unix_ms: ts }
}

#[test]
fn web_history_endpoint_clamps_limit() {
    let mut state = RuntimeState::new(sample(0), 3);
    for ts in 1..=3 {
        state.record_sample(sample(ts), 3);
    }
    assert_eq!(state.current.timestamp_unix_ms, 3);
    let samples = state.recent(Some(99), 3);
    assert_eq!(samples.len(), 3);
    assert_eq!(samples[0].timestamp_unix_ms, 1);
}

#[test]
fn history_keeps_the_latest_samples() {
    let mut state = RuntimeState::new(sample(0), 3);
    for ts in 1..=5 {
        state.record_sample(sample(ts), 3);
        assert!(state.history.len() <= 3);
    }
    let kept: Vec<u64> = state.history.iter().map(|s| s.timestamp_unix_ms).collect();
    assert_eq!(kept, vec![3, 4, 5]);
    assert_eq!(state.current, sample(5));
    assert_eq!(state.sample_errors, 0);
}

#[test]
fn history_requests_are_clamped() {
    let mut state = RuntimeState::new(sample(0), 4);
    for ts in 1..=4 {
        state.record_sample(sample(ts), 4);
    }
    let ts = |v: Vec<Sample>| v.into_iter().map(|s| s.timestamp_unix_ms).collect::<Vec<_>>();
    assert_eq!(ts(state.recent(Some(2), 4)), vec![3, 4]);
    assert_eq!(ts(state.recent(Some(0), 4)), vec![4]);
    assert_eq!(ts(state.recent(None, 4)), vec![1, 2, 3, 4]);
    assert_eq!(ts(state.recent(None, 2)), vec![3, 4]);
    let empty: RuntimeState<Sample> = RuntimeState::new(sample(0), 4);
    assert!(empty.recent(Some(3), 4).is_empty());
}

#[test]
fn failed_samples_are_counted() {
    let mut state = RuntimeState::new(sample(7), 2);
    state.record_error();
    state.record_error();
    assert_eq!(state.sample_errors, 2);
    assert_eq!(state.current, sample(7));
    assert!(state.history.is_empty());
}

#[test]
fn cpu_share_between_readings() {
    let prev = CpuTimes { idle: 100, total: 200 };
    let cur = CpuTimes { idle: 130, total: 300 };
    assert_eq!(cpu_share(Some(prev), Some(cur)), Some(CpuShare { busy: 70, total: 100 }));
    assert_eq!(cpu_share(Some(prev), Some(prev)), None);
    assert_eq!(cpu_share(None, Some(cur)), None);
    let reset = CpuTimes { idle: 500, total: 250 };
    assert_eq!(cpu_share(Some(prev), Some(reset)), Some(CpuShare { busy: 0, total: 50 }));
}

#[test]
fn cpu_usage_per_core() {
    let first = vec![
        CpuTimes { idle: 10, total: 20 },
        CpuTimes { idle: 5, total: 10 },
        CpuTimes { idle: 5, total: 10 },
    ];
    let none = compute_cpu_usage(&None, &first);
    assert_eq!(none.aggregate, None);
    assert_eq!(none.per_core, vec![None, None]);
    let second = vec![CpuTimes { idle: 15, total: 40 }, CpuTimes { idle: 5, total: 20 }];
    let usage = compute_cpu_usage(&Some(first), &second);
    assert_eq!(usage.aggregate, Some(CpuShare { busy: 15, total: 20 }));
    assert_eq!(usage.per_core, vec![Some(CpuShare { busy: 10, total: 10 })]);
}

#[test]
fn collector_remembers_cpu_counters() {
    let mut collector: Collector<String> = Collector::new(Some("/sys/temp".to_string()));
    assert_eq!(collector.cpu_temp_path().map(|p| p.as_str()), Some("/sys/temp"));
    let first = collector.observe_cpu(vec![CpuTimes { idle: 1, total: 2 }, CpuTimes { idle: 1, total: 2 }]);
    assert_eq!(first.aggregate, None);
    assert_eq!(first.per_core.len(), 1);
    let second = collector.observe_cpu(vec![CpuTimes { idle: 2, total: 6 }, CpuTimes { idle: 1, total: 4 }]);
    assert_eq!(second.aggregate, Some(CpuShare { busy: 3, total: 4 }));
    assert_eq!(second.per_core, vec![Some(CpuShare { busy: 2, total: 2 })]);
}

#[test]
fn vcgencmd_is_given_up_when_missing() {
    let mut collector: Collector<String> = Collector::new(None);
    assert!(collector.vcgencmd_enabled());
    let ok = collector.record_vcgencmd(CommandOutcome::Finished { success: true, stdout: Some("temp=40.0'C\n".to_string()) });
    assert_eq!(ok.as_deref(), Some("temp=40.0'C\n"));
    assert_eq!(collector.record_vcgencmd(CommandOutcome::Finished { success: false, stdout: Some("x".to_string()) }), None);
    assert_eq!(collector.record_vcgencmd(CommandOutcome::TimedOut), None);
    assert_eq!(collector.record_vcgencmd(CommandOutcome::SpawnFailed { not_found: false }), None);
    assert!(collector.vcgencmd_enabled());
    assert_eq!(collector.record_vcgencmd(CommandOutcome::SpawnFailed { not_found: true }), None);
    assert!(!collector.vcgencmd_enabled());
}

fn sources(args: &[&str]) -> ConfigSources {
    ConfigSources {
        env_host: None,
        env_port: None,
        env_interval_seconds: None,
        env_history_size: None,
        args: args.iter().map(|a| a.to_string()).collect(),
    }
}

#[test]
fn config_defaults() {
    let s = sources(&["cloakynode"]);
    let c = resolve_config(&s, Vec::new(), "0.0.0.0");
    assert_eq!(c.host, "0.0.0.0");
    assert_eq!(c.port, 8080);
    assert_eq!(c.interval_seconds, 5);
    assert_eq!(c.history_size, 120);
}

#[test]
fn config_arguments_override_environment() {
    let mut s = sources(&["cloakynode", "--port", "9000", "--interval-seconds", "0", "--history-size", "5000"]);
    s.env_port = Some("7000".to_string());
    s.env_history_size = Some("30".to_string());
    let c = resolve_config(&s, Vec::new(), ());
    assert_eq!(c.port, 9000);
    assert_eq!(c.interval_seconds, 1);
    assert_eq!(c.history_size, 1024);
    s.args = vec!["cloakynode".to_string(), "--history-size".to_string(), "3".to_string()];
    assert_eq!(resolve_config(&s, Vec::new(), ()).history_size, 12);
}

#[test]
fn config_invalid_values_are_ignored() {
    let mut s = sources(&["cloakynode", "--port", "70000", "--port", "+81", "--port", "x", "--bogus", "--port"]);
    s.env_interval_seconds = Some("ten".to_string());
    let c = resolve_config(&s, Vec::new(), ());
    assert_eq!(c.port, 81);
    assert_eq!(c.interval_seconds, 5);
}

#[test]
fn config_flag_takes_the_next_argument() {
    let s = sources(&["cloakynode", "--host", "--port", "9000", "--port", "9100"]);
    assert_eq!(host_candidates(&s), vec!["--port".to_string()]);
    assert_eq!(resolve_config(&s, Vec::new(), ()).port, 9100);
    let mut h = sources(&["cloakynode", "--host", "10.0.0.1", "--host", "bad"]);
    h.env_host = Some("127.0.0.1".to_string());
    assert_eq!(host_candidates(&h), vec!["127.0.0.1", "10.0.0.1", "bad"]);
    let c = resolve_config(&h, vec![Some(1), Some(2), None], 0);
    assert_eq!(c.host, 2);
    assert_eq!(resolve_config(&h, vec![None, None], 0).host, 0);
}

#[test]
fn dashboard_names_the_host() {
    let page = index_html("pi-four");
    assert!(page.contains("pi-four"));
    assert!(!page.contains("__HOSTNAME__"));
    assert_eq!(page, INDEX_HTML.replace("__HOSTNAME__", "pi-four"));
    assert_eq!(replace_text("a__b__c", "__", "-"), "a-b-c");
    assert_eq!(replace_text("aaa", "aa", "b"), "ba");
    assert_eq!(replace_text("x", "xyz", "q"), "x");
}

fn stat(pid: u32, comm: &str, utime: u64, stime: u64, rss: u64) -> String {
    let mut fields = vec!["S".to_string()];
    for i in 1..22 {
        fields.push(match i {
            11 => utime.to_string(),
            12 => stime.to_string(),
            21 => rss.to_string(),
            _ => "0".to_string(),
        });
    }
    format!("{pid} ({comm}) {}", fields.join(" "))
}

#[test]
fn process_stat_fields() {
    let prev: HashMap<u32, ProcessCpuTimes> = HashMap::from([(7, ProcessCpuTimes { pid: 7, total_jiffies: 100 })]);
    let (info, times) = parse_process_stat(&stat(7, "my (odd) name", 90, 30, 3), 7, &prev).unwrap();
    assert_eq!(info.name, "my (odd) name");
    assert_eq!(info.cpu_jiffies, 20);
    assert_eq!(info.mem_bytes, 3 * 4096);
    assert_eq!(info.state, 'S');
    assert_eq!(times, ProcessCpuTimes { pid: 7, total_jiffies: 120 });
    let (fresh, _) = parse_process_stat(&stat(8, "new", 90, 30, 3), 8, &prev).unwrap();
    assert_eq!(fresh.cpu_jiffies, 0);
    assert!(parse_process_stat("8 (short) S 1 2 3", 8, &prev).is_none());
    assert!(parse_process_stat("no parens at all", 8, &prev).is_none());
}

#[test]
fn top_processes_are_sorted_and_bounded() {
    let mut prev = HashMap::new();
    let mut stats = Vec::new();
    for pid in 1..=12u32 {
        prev.insert(pid, ProcessCpuTimes { pid, total_jiffies: 0 });
        let used = if pid % 3 == 0 { 50 } else { u64::from(pid) };
        stats.push(ProcStat { pid, stat: stat(pid, "p", used, 0, 1) });
    }
    stats.push(ProcStat { pid: 99, stat: "broken".to_string() });
    let (top, times) = top_processes(&stats, &prev);
    assert_eq!(top.len(), 10);
    let pids: Vec<u32> = top.iter().map(|p| p.pid).collect();
    assert_eq!(pids, vec![3, 6, 9, 12, 11, 10, 8, 7, 5, 4]);
    assert_eq!(times.len(), 12);
    assert_eq!(times[&12], ProcessCpuTimes { pid: 12, total_jiffies: 50 });
}

fn zone(name: &str, temp: bool, kind: &str) -> Option<ZoneEntry> {
    Some(ZoneEntry {
        file_name: Some(name.to_string()),
        temp_exists: temp,
        zone_type: kind.to_string(),
    })
}

#[test]
fn thermal_zone_choice() {
    let zones = vec![
        zone("cooling_device0", true, "cpu"),
        zone("thermal_zone0", false, "cpu-thermal"),
        zone("thermal_zone1", true, "gpu"),
        zone("thermal_zone2", true, " X86_PKG_TEMP\n"),
        zone("thermal_zone3", true, "CPU-Thermal\n"),
    ];
    assert_eq!(select_temp_zone(&zones), Some(4));
    assert_eq!(select_temp_zone(&zones[..4].to_vec()), Some(2));
    assert_eq!(select_temp_zone(&zones[..2].to_vec()), None);
    let broken = vec![zone("thermal_zone1", true, "gpu"), None, zone("thermal_zone2", true, "soc")];
    assert_eq!(select_temp_zone(&broken), None);
    let early = vec![zone("thermal_zone1", true, "soc"), None];
    assert_eq!(select_temp_zone(&early), Some(0));
}

#[test]
fn health_answer_is_ok() {
    let h = cloakynode::models::HealthResponse::ok(12, 34, 5, 6);
    assert_eq!(h.status, "ok");
    assert_eq!((h.process_uptime_seconds, h.last_sample_timestamp_unix_ms, h.sample_errors, h.request_count), (12, 34, 5, 6));
}
