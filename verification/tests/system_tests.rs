use bytewatch::system::{select_disk_usage, sum_network_counters, throughput_from, DiskSpace, NetworkCounters};

fn disk(mount: &str, total: u64, available: u64) -> DiskSpace {
    DiskSpace { mount_point: mount.to_string(), total_space: total, available_space: available }
}

#[test]
fn disk_usage_prefers_root() {
    let disks = vec![disk("/boot", 100, 40), disk("/", 1000, 250), disk("/", 5, 1)];
    assert_eq!(select_disk_usage(&disks), (750, 1000));
}

#[test]
fn disk_usage_falls_back_to_first() {
    let disks = vec![disk("/home", 500, 100), disk("/boot", 100, 40)];
    assert_eq!(select_disk_usage(&disks), (400, 500));
}

#[test]
fn disk_usage_of_nothing_is_zero() {
    assert_eq!(select_disk_usage(&Vec::new()), (0, 0));
}

#[test]
fn disk_usage_never_goes_negative() {
    let disks = vec![disk("/", 100, 300)];
    assert_eq!(select_disk_usage(&disks), (0, 100));
    let disks = vec![disk("//", 100, 30), disk("/root", 10, 3)];
    assert_eq!(select_disk_usage(&disks), (70, 100));
}

#[test]
fn network_totals_add_up() {
    let counters = vec![
        NetworkCounters { received: 100, transmitted: 7 },
        NetworkCounters { received: 23, transmitted: 0 },
    ];
    assert_eq!(sum_network_counters(&counters), (123, 7));
    assert_eq!(throughput_from(&counters, 0, 0), (123, 7));
    assert_eq!(throughput_from(&counters, 23, 10), (100, 0));
}

#[test]
fn network_totals_saturate() {
    let counters = vec![
        NetworkCounters { received: u64::MAX - 1, transmitted: 1 },
        NetworkCounters { received: 5, transmitted: 1 },
    ];
    assert_eq!(sum_network_counters(&counters), (u64::MAX, 2));
}

#[test]
fn root_is_recognised_as_paths_compare() {
    let disks = vec![disk("/a", 1, 0), disk("//", 5, 1)];
    assert_eq!(select_disk_usage(&disks), (4, 5));
    let disks = vec![disk("/boot", 10, 2), disk("/.", 50, 20)];
    assert_eq!(select_disk_usage(&disks), (30, 50));
    let disks = vec![disk("/home", 10, 2), disk("/./", 60, 20)];
    assert_eq!(select_disk_usage(&disks), (40, 60));
    let disks = vec![disk("/home", 10, 2), disk("/..", 60, 20), disk("/.a", 70, 20), disk("./", 80, 20)];
    assert_eq!(select_disk_usage(&disks), (8, 10));
}

#[test]
fn root_test_matches_path_equality() {
    let candidates = [
        "/", "//", "///", "/.", "/./", "/./.", "/.//.", "/..", "/a", "/a/..", "./", ".", "", "a/",
        "/.a", "/a.", "/ ", "//.", "/.x/", "/\u{e9}",
    ];
    for mount in candidates {
        let disks = vec![disk("/other", 10, 9), disk(mount, 100, 1)];
        let root = std::path::Path::new(mount) == std::path::Path::new("/");
        let expected = if root { (99, 100) } else { (1, 10) };
        assert_eq!(select_disk_usage(&disks), expected, "mount point {:?}", mount);
    }
}
