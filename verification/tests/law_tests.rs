use bytewatch::app::App;
use bytewatch::format::{format_bytes, format_uptime, truncate_string};
use bytewatch::process::{sort_process_list, ProcessInfo, SortBy};
use bytewatch::system::{throughput_from, NetworkCounters, SystemMonitor};

#[test]
fn whole_units_are_shown_exactly() {
    assert_eq!(format_bytes(0), "0.00 B");
    assert_eq!(format_bytes(512), "512.00 B");
    assert_eq!(format_bytes(5 * 1024), "5.00 KB");
    assert_eq!(format_bytes(1023 * 1048576), "1023.00 MB");
    assert_eq!(format_bytes(7 * 1073741824), "7.00 GB");
    assert_eq!(format_bytes(1023 * 1099511627776), "1023.00 TB");
}

#[test]
fn truncated_text_has_at_most_max_len_characters() {
    for max_len in 1..20usize {
        let text = truncate_string("a fairly long process name", max_len);
        assert!(text.chars().count() <= max_len);
        let wide = truncate_string("\u{e9}\u{e9}\u{e9}\u{e9}\u{e9}\u{e9}\u{e9}\u{e9}", max_len);
        assert!(wide.chars().count() <= max_len);
    }
}

#[test]
fn uptime_ignores_seconds() {
    assert_eq!(format_uptime(3661), format_uptime(3660));
    assert_eq!(format_uptime(90119), format_uptime(90060));
    assert_eq!(format_uptime(59), format_uptime(0));
}

#[test]
fn sorting_twice_is_sorting_once() {
    let mut list = vec![
        ProcessInfo { pid: 3, name: "b".to_string(), cpu_usage_bits: 2.0f32.to_bits(), memory_usage: 1 },
        ProcessInfo { pid: 1, name: "a".to_string(), cpu_usage_bits: 2.0f32.to_bits(), memory_usage: 9 },
        ProcessInfo { pid: 2, name: "a".to_string(), cpu_usage_bits: 9.0f32.to_bits(), memory_usage: 1 },
    ];
    for by in [SortBy::Cpu, SortBy::Memory, SortBy::Name, SortBy::Pid] {
        sort_process_list(&mut list, by);
        let once: Vec<u32> = list.iter().map(|p| p.pid).collect();
        sort_process_list(&mut list, by);
        let twice: Vec<u32> = list.iter().map(|p| p.pid).collect();
        assert_eq!(once, twice);
    }
}

#[test]
fn throughput_against_nothing_recorded_is_the_total() {
    let counters = vec![NetworkCounters { received: 10, transmitted: 3 }];
    assert_eq!(throughput_from(&counters, 0, 0), (10, 3));
    assert_eq!(throughput_from(&counters, 4, 4), (6, 0));
}

#[test]
fn live_monitor_figures_are_consistent() {
    let monitor = SystemMonitor::new();
    let (used, total) = monitor.disk_usage();
    assert!(used <= total);
    let processes = monitor.get_processes();
    assert_eq!(processes.len(), monitor.process_count());
}

#[test]
fn app_keeps_processes_sorted_by_cpu() {
    let mut app = App::new();
    assert_eq!(app.sort_by(), SortBy::Cpu);
    app.update();
    app.refresh_immediately();
    assert_eq!(app.sort_by(), SortBy::Cpu);
    let cpus: Vec<f32> = app.processes().iter().map(|p| f32::from_bits(p.cpu_usage_bits)).collect();
    for pair in cpus.windows(2) {
        if !pair[0].is_nan() && !pair[1].is_nan() {
            assert!(pair[0] >= pair[1]);
        }
    }
}

#[test]
fn app_figures_come_from_its_monitor() {
    let app = App::new();
    assert_eq!(app.processes().len(), app.process_count());
    assert_eq!(app.memory_info(), app.system_monitor().memory_info());
    assert_eq!(app.disk_usage(), app.system_monitor().disk_usage());
    let mut pids: Vec<u32> = app.processes().iter().map(|p| p.pid).collect();
    pids.sort();
    pids.dedup();
    assert_eq!(pids.len(), app.process_count());
}

#[test]
fn monitor_lists_processes_by_cpu() {
    let monitor = SystemMonitor::new();
    let cpus: Vec<f32> = monitor.get_processes().iter().map(|p| f32::from_bits(p.cpu_usage_bits)).collect();
    if cpus.iter().all(|c| !c.is_nan()) {
        for pair in cpus.windows(2) {
            assert!(pair[0] >= pair[1]);
        }
    }
}

#[test]
fn updated_list_matches_process_count() {
    let mut app = App::new();
    app.update();
    assert_eq!(app.processes().len(), app.process_count());
    assert_eq!(app.sort_by(), SortBy::Cpu);
    let (rx, tx) = app.network_throughput();
    assert_eq!((rx, tx), app.system_monitor().network_throughput());
}
