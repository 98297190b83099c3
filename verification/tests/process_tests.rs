use bytewatch::process::{sort_process_list, sorts_after_exec, ProcessInfo, SortBy};

fn proc_info(pid: u32, name: &str, cpu: f32, memory: u64) -> ProcessInfo {
    ProcessInfo { pid, name: name.to_string(), cpu_usage_bits: cpu.to_bits(), memory_usage: memory }
}

fn pids(list: &[ProcessInfo]) -> Vec<u32> {
    list.iter().map(|p| p.pid).collect()
}

fn sample() -> Vec<ProcessInfo> {
    vec![
        proc_info(30, "sshd", 0.5, 4096),
        proc_info(10, "bash", 12.0, 1024),
        proc_info(20, "cargo", 75.5, 8192),
        proc_info(40, "bash", 12.0, 2048),
        proc_info(5, "Xorg", 3.25, 8192),
    ]
}

#[test]
fn sorts_by_cpu_descending_and_stably() {
    let mut list = sample();
    sort_process_list(&mut list, SortBy::Cpu);
    assert_eq!(pids(&list), vec![20, 10, 40, 5, 30]);
}

#[test]
fn sorts_by_memory_descending_and_stably() {
    let mut list = sample();
    sort_process_list(&mut list, SortBy::Memory);
    assert_eq!(pids(&list), vec![20, 5, 30, 40, 10]);
}

#[test]
fn sorts_by_name_ascending_and_stably() {
    let mut list = sample();
    sort_process_list(&mut list, SortBy::Name);
    assert_eq!(pids(&list), vec![5, 10, 40, 20, 30]);
}

#[test]
fn sorts_by_pid_ascending() {
    let mut list = sample();
    sort_process_list(&mut list, SortBy::Pid);
    assert_eq!(pids(&list), vec![5, 10, 20, 30, 40]);
}

#[test]
fn sort_matches_std_sort_by() {
    let names = ["a", "b", "ab", "\u{e9}t\u{e9}", "Z", "", "zz", "a\u{1F600}"];
    let cpus = [0.0f32, -0.0, 1.5, 100.0, 0.25, 3.0e-8, 7.0, 400.0];
    let mut seed: u64 = 12345;
    for round in 0..200 {
        let mut list = Vec::new();
        for i in 0..(round % 17) {
            seed = seed.wrapping_mul(6364136223846793005).wrapping_add(1442695040888963407);
            let r = (seed >> 33) as usize;
            list.push(proc_info(
                (r % 50) as u32,
                names[r % names.len()],
                cpus[(r / 7) % cpus.len()],
                (r % 5) as u64 * 1000 + i as u64,
            ));
        }
        for by in [SortBy::Cpu, SortBy::Memory, SortBy::Name, SortBy::Pid] {
            let mut ours = list.clone();
            sort_process_list(&mut ours, by);
            let mut expected = list.clone();
            match by {
                SortBy::Cpu => expected.sort_by(|a, b| {
                    f32::from_bits(b.cpu_usage_bits)
                        .partial_cmp(&f32::from_bits(a.cpu_usage_bits))
                        .unwrap_or(std::cmp::Ordering::Equal)
                }),
                SortBy::Memory => expected.sort_by(|a, b| b.memory_usage.cmp(&a.memory_usage)),
                SortBy::Name => expected.sort_by(|a, b| a.name.cmp(&b.name)),
                SortBy::Pid => expected.sort_by(|a, b| a.pid.cmp(&b.pid)),
            }
            let ours_keys: Vec<(u32, String, u32, u64)> =
                ours.iter().map(|p| (p.pid, p.name.clone(), p.cpu_usage_bits, p.memory_usage)).collect();
            let expected_keys: Vec<(u32, String, u32, u64)> = expected
                .iter()
                .map(|p| (p.pid, p.name.clone(), p.cpu_usage_bits, p.memory_usage))
                .collect();
            assert_eq!(ours_keys, expected_keys);
        }
    }
}

#[test]
fn cpu_comparison_follows_float_order() {
    let values = [
        f32::NEG_INFINITY, -1.0e30, -2.5, -1.0, -1.0e-40, -0.0, 0.0, 1.0e-40, 0.5, 1.0, 99.9,
        100.0, 1.0e30, f32::INFINITY,
    ];
    for &a in values.iter() {
        for &b in values.iter() {
            let pa = proc_info(1, "a", a, 0);
            let pb = proc_info(2, "b", b, 0);
            // `a` goes after `b` when the comparator `b.partial_cmp(a)` says Greater.
            let expected = b.partial_cmp(&a) == Some(std::cmp::Ordering::Greater);
            assert_eq!(sorts_after_exec(SortBy::Cpu, &pa, &pb), expected, "{} vs {}", a, b);
        }
    }
    let nan = proc_info(3, "n", f32::NAN, 0);
    let one = proc_info(4, "o", 1.0, 0);
    assert!(!sorts_after_exec(SortBy::Cpu, &nan, &one));
    assert!(!sorts_after_exec(SortBy::Cpu, &one, &nan));
}

#[test]
fn empty_list_stays_empty() {
    let mut list: Vec<ProcessInfo> = Vec::new();
    sort_process_list(&mut list, SortBy::Name);
    assert!(list.is_empty());
}
