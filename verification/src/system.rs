//! System information monitoring: memory, disk, network and process figures read through
//! `sysinfo`, and what the monitor computes from them.
use vstd::prelude::*;
use vstd::multiset::Multiset;
use vstd::string::StrSliceExecFns;
use sysinfo::{DiskExt, NetworkExt, NetworksExt, PidExt, ProcessExt, SystemExt};
use crate::process::{
    comparator_total_on, f32_is_nan, index_taken, rearranged, sort_process_list, sorted_by, stable, ProcessInfo,
    SortBy,
};

verus! {

/// The `sysinfo` view of the machine; the proofs see nothing inside it.
#[verifier::external_type_specification]
#[verifier::external_body]
pub struct ExSystem(sysinfo::System);

/// Space figures of one mounted filesystem, in bytes.
#[derive(Debug, Clone)]
pub struct DiskSpace {
    /// Where the filesystem is mounted
    pub mount_point: String,
    /// Size of the filesystem
    pub total_space: u64,
    /// Space that is still free for use
    pub available_space: u64,
}

/// Bytes that one network interface received and sent since the previous refresh.
#[derive(Debug, Clone, Copy, PartialEq, Eq, Structural)]
pub struct NetworkCounters {
    /// Bytes received
    pub received: u64,
    /// Bytes transmitted
    pub transmitted: u64,
}

/// Calls `sysinfo::SystemExt::new_all`, which reads everything the machine reports.
#[verifier::external_body]
fn sys_new_all() -> (system: sysinfo::System) {
    sysinfo::System::new_all()
}

/// Calls `sysinfo::SystemExt::refresh_all`, which reads the machine's figures anew.
#[verifier::external_body]
fn sys_refresh_all(system: &mut sysinfo::System) {
    system.refresh_all()
}

/// Used memory, in bytes, that the `sysinfo` figures `system` hold (as of their last
/// refresh).
pub uninterp spec fn reported_used_memory(system: sysinfo::System) -> u64;

/// Total memory, in bytes, that the `sysinfo` figures `system` hold.
pub uninterp spec fn reported_total_memory(system: sysinfo::System) -> u64;

/// The filesystems that the `sysinfo` figures `system` list, in their order: each as its
/// mount point (as text), total space and available space.
pub uninterp spec fn reported_disks(system: sysinfo::System) -> Seq<(Seq<char>, u64, u64)>;

/// The process table that the `sysinfo` figures `system` hold: for each pid, the process's
/// name, the bit pattern of its CPU usage and its memory in bytes.
pub uninterp spec fn reported_processes(system: sysinfo::System) -> Map<u32, (Seq<char>, u32, u64)>;

/// Calls `sysinfo::SystemExt::used_memory`, which reads a figure that the system value
/// holds (kept since its last refresh): the same value gives the same figure. What that
/// figure is on the machine is not stated.
#[verifier::external_body]
fn sys_used_memory(system: &sysinfo::System) -> (used: u64)
    ensures
        used == reported_used_memory(*system),
{
    system.used_memory()
}

/// Calls `sysinfo::SystemExt::total_memory`, which returns a figure that the system value
/// holds: the same value gives the same figure. What that figure is is not stated.
#[verifier::external_body]
fn sys_total_memory(system: &sysinfo::System) -> (total: u64)
    ensures
        total == reported_total_memory(*system),
{
    system.total_memory()
}

/// The mount point, total space and available space of `disk`.
pub open spec fn disk_entry(disk: DiskSpace) -> (Seq<char>, u64, u64) {
    (disk.mount_point@, disk.total_space, disk.available_space)
}

/// The entries of a list of filesystems.
pub open spec fn disk_entries(disks: Seq<DiskSpace>) -> Seq<(Seq<char>, u64, u64)> {
    disks.map_values(|d: DiskSpace| disk_entry(d))
}

/// Calls `sysinfo::SystemExt::disks`, which returns the disk list that the system value
/// holds, and hands out each disk's mount point (converted lossily to text), total space
/// and available space, in the list's order. What the machine reports is not stated.
#[verifier::external_body]
fn sys_disks(system: &sysinfo::System) -> (disks: Vec<DiskSpace>)
    ensures
        disk_entries(disks@) == reported_disks(*system),
{
    system.disks().iter().map(|d| DiskSpace {
        mount_point: d.mount_point().to_string_lossy().into_owned(),
        total_space: d.total_space(),
        available_space: d.available_space(),
    }).collect()
}

/// The interfaces' counters that the `sysinfo` figures `system` hold: for each interface,
/// the bytes received and transmitted between the last two refreshes.
pub uninterp spec fn reported_network_counters(system: sysinfo::System) -> Multiset<NetworkCounters>;

/// Calls `sysinfo::SystemExt::networks`, the interface map that the system value holds,
/// and hands out each interface's received and transmitted byte counts. The interfaces
/// come in the order of a hash map walk, which is not stated; what the machine reports is
/// not stated.
#[verifier::external_body]
fn sys_network_counters(system: &sysinfo::System) -> (counters: Vec<NetworkCounters>)
    ensures
        counters@.to_multiset() == reported_network_counters(*system),
{
    system.networks().iter().map(|(_, data)| NetworkCounters {
        received: data.received(),
        transmitted: data.transmitted(),
    }).collect()
}

/// The process entry of `process`: its name, CPU usage bits and memory.
pub open spec fn process_entry(process: ProcessInfo) -> (Seq<char>, u32, u64) {
    (process.name@, process.cpu_usage_bits, process.memory_usage)
}

/// Some item of `list` has the pid `pid`.
pub open spec fn lists_pid(list: Seq<ProcessInfo>, pid: u32) -> bool {
    exists|i: int| 0 <= i < list.len() && list[i].pid == pid
}

/// `list` holds each process of the (finite) `table` exactly once: one item per pid, with
/// that pid's entry, and every pid of the table present.
pub open spec fn lists_processes(list: Seq<ProcessInfo>, table: Map<u32, (Seq<char>, u32, u64)>) -> bool {
    &&& table.dom().finite()
    &&& list.len() == table.len()
    &&& forall|i: int, j: int| 0 <= i < j < list.len() ==> #[trigger] list[i].pid != #[trigger] list[j].pid
    &&& forall|i: int| 0 <= i < list.len() ==> table.contains_key(#[trigger] list[i].pid)
        && table[list[i].pid] == process_entry(list[i])
    &&& forall|pid: u32| #[trigger] table.contains_key(pid) ==> lists_pid(list, pid)
}

/// No CPU usage in `table` is NaN, so that CPU usages compare as a total order.
pub open spec fn cpu_usages_comparable(table: Map<u32, (Seq<char>, u32, u64)>) -> bool {
    forall|pid: u32| #[trigger] table.contains_key(pid) ==> !f32_is_nan(table[pid].1)
}

/// A rearrangement of a listing of a process table lists that table too.
pub proof fn lemma_rearranged_listing(
    p: Seq<int>,
    before: Seq<ProcessInfo>,
    after: Seq<ProcessInfo>,
    table: Map<u32, (Seq<char>, u32, u64)>,
)
    requires
        rearranged(p, before, after),
        lists_processes(before, table),
    ensures
        lists_processes(after, table),
{
    assert forall|i: int, j: int| 0 <= i < j < after.len() implies #[trigger] after[i].pid
        != #[trigger] after[j].pid by {
        assert(after[i] == before[p[i]] && after[j] == before[p[j]]);
        if p[i] < p[j] {
            assert(before[p[i]].pid != before[p[j]].pid);
        } else {
            assert(before[p[j]].pid != before[p[i]].pid);
        }
    }
    assert forall|i: int| 0 <= i < after.len() implies table.contains_key(#[trigger] after[i].pid)
        && table[after[i].pid] == process_entry(after[i]) by {
        assert(after[i] == before[p[i]]);
    }
    assert forall|pid: u32| #[trigger] table.contains_key(pid) implies lists_pid(after, pid) by {
        let i = choose|i: int| 0 <= i < before.len() && before[i].pid == pid;
        assert(index_taken(p, i));
        let j = choose|j: int| 0 <= j < p.len() && p[j] == i;
        assert(after[j] == before[i]);
    }
}

/// A listing of a table without NaN CPU usages has none either.
pub proof fn lemma_listing_comparable(list: Seq<ProcessInfo>, table: Map<u32, (Seq<char>, u32, u64)>)
    requires
        lists_processes(list, table),
        cpu_usages_comparable(table),
    ensures
        comparator_total_on(SortBy::Cpu, list),
{
    assert forall|i: int| 0 <= i < list.len() implies !f32_is_nan(#[trigger] list[i].cpu_usage_bits) by {
        assert(table.contains_key(list[i].pid));
    }
}

/// Calls `sysinfo::SystemExt::processes`, the process table that the system value holds (a
/// hash map keyed by pid), and hands out each process's pid, name, CPU usage (as the bit
/// pattern of the float) and memory. The order is that of a hash map walk and is not
/// stated; what the machine reports is not stated.
#[verifier::external_body]
fn sys_processes(system: &sysinfo::System) -> (processes: Vec<ProcessInfo>)
    ensures
        lists_processes(processes@, reported_processes(*system)),
{
    system.processes().iter().map(|(pid, process)| ProcessInfo {
        pid: pid.as_u32(),
        name: process.name().to_string(),
        cpu_usage_bits: process.cpu_usage().to_bits(),
        memory_usage: process.memory(),
    }).collect()
}

/// Calls `sysinfo::SystemExt::processes` and returns how many entries the table holds.
#[verifier::external_body]
fn sys_process_count(system: &sysinfo::System) -> (count: usize)
    ensures
        count == reported_processes(*system).len(),
{
    system.processes().len()
}

/// Calls `sysinfo::SystemExt::uptime`, which reads the time since boot from the machine;
/// nothing is stated of it.
#[verifier::external_body]
fn sys_uptime(system: &sysinfo::System) -> (seconds: u64) {
    system.uptime()
}

/// The filesystem with this entry is mounted at the root, "/".
pub open spec fn is_root_mount(entry: (Seq<char>, u64, u64)) -> bool {
    is_root_path(entry.0)
}

/// Character `i` of the path text `path` is a separator, or a "." that stands alone
/// between separators (or after the last one).
pub open spec fn root_path_char(path: Seq<char>, i: int) -> bool {
    ||| path[i] == '/'
    ||| path[i] == '.' && i > 0 && path[i - 1] == '/' && (i + 1 == path.len() || path[i + 1] == '/')
}

/// `path` names the root directory as paths compare: it starts with "/" and each component
/// after that is empty or "." ("/", "//", "/.", "/./" all do).
pub open spec fn is_root_path(path: Seq<char>) -> bool {
    &&& path.len() > 0
    &&& path[0] == '/'
    &&& forall|i: int| 0 <= i < path.len() ==> #[trigger] root_path_char(path, i)
}

/// The entry of the first root filesystem in `entries`, if there is one.
pub open spec fn first_root(entries: Seq<(Seq<char>, u64, u64)>) -> Option<(Seq<char>, u64, u64)>
    decreases entries.len(),
{
    if entries.len() == 0 {
        None
    } else if is_root_mount(entries[0]) {
        Some(entries[0])
    } else {
        first_root(entries.drop_first())
    }
}

/// The filesystem whose usage is shown: the root filesystem, else the first one listed.
pub open spec fn shown_disk(entries: Seq<(Seq<char>, u64, u64)>) -> Option<(Seq<char>, u64, u64)> {
    match first_root(entries) {
        Some(d) => Some(d),
        None => if entries.len() > 0 {
            Some(entries[0])
        } else {
            None
        },
    }
}

/// `(used, total)` of the shown filesystem, where used is total minus available (zero if
/// more is available than the total), or `(0, 0)` when there is no filesystem.
pub open spec fn disk_usage_of(entries: Seq<(Seq<char>, u64, u64)>) -> (u64, u64) {
    match shown_disk(entries) {
        Some(d) => (
            if d.2 <= d.1 {
                (d.1 - d.2) as u64
            } else {
                0
            },
            d.1,
        ),
        None => (0, 0),
    }
}

/// The filesystem is mounted at "/".
fn mounted_at_root(disk: &DiskSpace) -> (root: bool)
    ensures
        root == is_root_mount(disk_entry(*disk)),
{
    let mount = disk.mount_point.as_str();
    let len = mount.unicode_len();
    if len == 0 {
        return false;
    }
    if mount.get_char(0) != '/' {
        return false;
    }
    let mut i: usize = 0;
    while i < len
        invariant
            mount@ == disk.mount_point@,
            len == mount@.len(),
            len > 0,
            mount@[0] == '/',
            i <= len,
            forall|j: int| 0 <= j < i ==> #[trigger] root_path_char(mount@, j),
        decreases len - i,
    {
        let c = mount.get_char(i);
        if c != '/' {
            if c != '.' || i == 0 {
                assert(!root_path_char(mount@, i as int));
                return false;
            }
            if mount.get_char(i - 1) != '/' {
                assert(!root_path_char(mount@, i as int));
                return false;
            }
            if i + 1 < len && mount.get_char(i + 1) != '/' {
                assert(!root_path_char(mount@, i as int));
                return false;
            }
        }
        assert(root_path_char(mount@, i as int));
        i = i + 1;
    }
    true
}

/// Usage `(used, total)` of the root filesystem, or of the first one when none is mounted
/// at "/", or `(0, 0)` for an empty list.
pub fn select_disk_usage(disks: &Vec<DiskSpace>) -> (usage: (u64, u64))
    ensures
        usage == disk_usage_of(disk_entries(disks@)),
        usage.0 <= usage.1,
{
    let ghost entries = disk_entries(disks@);
    let mut i: usize = 0;
    let mut found: Option<usize> = None;
    assert(entries.skip(0) =~= entries);
    while i < disks.len()
        invariant
            entries == disk_entries(disks@),
            entries.len() == disks@.len(),
            i <= disks@.len(),
            found is None ==> first_root(entries) == first_root(entries.skip(i as int)),
            found matches Some(k) ==> k < disks@.len() && first_root(entries) == Some(entries[k as int]),
        decreases disks@.len() - i,
    {
        if found.is_none() {
            assert(entries.skip(i as int).drop_first() =~= entries.skip(i + 1));
            assert(entries.skip(i as int)[0] == disk_entry(disks@[i as int]));
            if mounted_at_root(&disks[i]) {
                found = Some(i);
            }
        }
        i = i + 1;
    }
    let shown: Option<usize> = match found {
        Some(k) => Some(k),
        None => if disks.len() > 0 {
            Some(0)
        } else {
            None
        },
    };
    match shown {
        Some(k) => {
            assert(entries[k as int] == disk_entry(disks@[k as int]));
            let total: u64 = disks[k].total_space;
            let available: u64 = disks[k].available_space;
            (total.saturating_sub(available), total)
        },
        None => (0, 0),
    }
}

proof fn lemma_first_root_is_first(entries: Seq<(Seq<char>, u64, u64)>)
    ensures
        first_root(entries) is None ==> forall|j: int| 0 <= j < entries.len() ==> !is_root_mount(#[trigger] entries[j]),
        first_root(entries) is Some ==> exists|i: int|
            0 <= i < entries.len() && first_root(entries) == Some(entries[i]) && is_root_mount(entries[i])
                && forall|j: int| 0 <= j < i ==> !is_root_mount(#[trigger] entries[j]),
    decreases entries.len(),
{
    if entries.len() > 0 && !is_root_mount(entries[0]) {
        let rest = entries.drop_first();
        lemma_first_root_is_first(rest);
        if first_root(rest) is Some {
            let i = choose|i: int|
                0 <= i < rest.len() && first_root(rest) == Some(rest[i]) && is_root_mount(rest[i])
                    && forall|j: int| 0 <= j < i ==> !is_root_mount(#[trigger] rest[j]);
            assert(entries[i + 1] == rest[i]);
            assert forall|j: int| 0 <= j < i + 1 implies !is_root_mount(#[trigger] entries[j]) by {
                if j > 0 {
                    assert(entries[j] == rest[j - 1]);
                }
            }
        } else {
            assert forall|j: int| 0 <= j < entries.len() implies !is_root_mount(#[trigger] entries[j]) by {
                if j > 0 {
                    assert(entries[j] == rest[j - 1]);
                }
            }
        }
    } else if entries.len() > 0 {
        assert(first_root(entries) == Some(entries[0]));
    }
}

/// Which disk is shown and what its usage is, in terms of the list: the first filesystem
/// mounted at the root, else the first one listed; its total is reported as is, and the used
/// space together with the available space makes up the total (used is zero when more is
/// available than the total); an empty list shows `(0, 0)`.
pub proof fn lemma_disk_usage_adds_up(entries: Seq<(Seq<char>, u64, u64)>)
    ensures
        entries.len() == 0 ==> disk_usage_of(entries) == (0u64, 0u64),
        entries.len() > 0 ==> exists|i: int|
            #![trigger entries[i]]
            0 <= i < entries.len() && (is_root_mount(entries[i]) || (i == 0 && forall|j: int|
                0 <= j < entries.len() ==> !is_root_mount(#[trigger] entries[j])))
                && (forall|j: int| 0 <= j < i ==> !is_root_mount(#[trigger] entries[j]))
                && disk_usage_of(entries).1 == entries[i].1
                && (entries[i].2 <= entries[i].1 ==> disk_usage_of(entries).0 as int + entries[i].2 as int
                    == entries[i].1 as int)
                && (entries[i].2 > entries[i].1 ==> disk_usage_of(entries).0 == 0),
{
    lemma_first_root_is_first(entries);
    if entries.len() > 0 {
        if first_root(entries) is Some {
            let i = choose|i: int|
                0 <= i < entries.len() && first_root(entries) == Some(entries[i]) && is_root_mount(entries[i])
                    && forall|j: int| 0 <= j < i ==> !is_root_mount(#[trigger] entries[j]);
            assert(entries[i] == entries[i]);
        } else {
            assert(entries[0] == entries[0]);
        }
    }
}

/// Sum of what the interfaces `counters` received.
pub open spec fn received_sum(counters: Seq<NetworkCounters>) -> int
    decreases counters.len(),
{
    if counters.len() == 0 {
        0
    } else {
        received_sum(counters.drop_last()) + counters.last().received
    }
}

/// Sum of what the interfaces `counters` transmitted.
pub open spec fn transmitted_sum(counters: Seq<NetworkCounters>) -> int
    decreases counters.len(),
{
    if counters.len() == 0 {
        0
    } else {
        transmitted_sum(counters.drop_last()) + counters.last().transmitted
    }
}

proof fn lemma_sums_nonnegative(counters: Seq<NetworkCounters>)
    ensures
        received_sum(counters) >= 0,
        transmitted_sum(counters) >= 0,
    decreases counters.len(),
{
    if counters.len() > 0 {
        lemma_sums_nonnegative(counters.drop_last());
    }
}

/// `x`, or the largest `u64` if `x` does not fit.
pub open spec fn saturated(x: int) -> u64 {
    if x > u64::MAX {
        u64::MAX
    } else {
        x as u64
    }
}

/// `a - b`, or zero if `b` exceeds `a`.
pub open spec fn minus_or_zero(a: u64, b: u64) -> u64 {
    if b <= a {
        (a - b) as u64
    } else {
        0
    }
}

/// Totals `(received, transmitted)` over all interfaces, held at the largest `u64` if they
/// do not fit.
pub open spec fn network_totals(counters: Seq<NetworkCounters>) -> (u64, u64) {
    (saturated(received_sum(counters)), saturated(transmitted_sum(counters)))
}

proof fn lemma_sums_remove(s: Seq<NetworkCounters>, i: int)
    requires
        0 <= i < s.len(),
    ensures
        received_sum(s) == received_sum(s.remove(i)) + s[i].received,
        transmitted_sum(s) == transmitted_sum(s.remove(i)) + s[i].transmitted,
    decreases s.len(),
{
    if i == s.len() - 1 {
        assert(s.remove(i) =~= s.drop_last());
    } else {
        assert(s.remove(i).drop_last() =~= s.drop_last().remove(i));
        assert(s.remove(i).last() == s.last());
        lemma_sums_remove(s.drop_last(), i);
    }
}

/// The sums do not depend on the order of the interfaces.
proof fn lemma_sums_permutation(s: Seq<NetworkCounters>, t: Seq<NetworkCounters>)
    requires
        s.to_multiset() == t.to_multiset(),
    ensures
        received_sum(s) == received_sum(t),
        transmitted_sum(s) == transmitted_sum(t),
    decreases s.len(),
{
    broadcast use vstd::seq_lib::group_to_multiset_ensures;
    if s.len() == 0 {
        assert(s.to_multiset().len() == s.len());
        assert(t.to_multiset().len() == t.len());
        assert(t.len() == 0);
        assert(t =~= s);
    } else {
        let x = s.last();
        let rest = s.drop_last();
        assert(rest.push(x) =~= s);
        assert(s.to_multiset() =~= rest.to_multiset().insert(x));
        assert(t.to_multiset().count(x) > 0);
        assert(t.contains(x));
        let k = choose|k: int| 0 <= k < t.len() && t[k] == x;
        assert(t.remove(k).to_multiset() =~= t.to_multiset().remove(x));
        assert(rest.to_multiset() =~= t.remove(k).to_multiset());
        lemma_sums_permutation(rest, t.remove(k));
        lemma_sums_remove(t, k);
    }
}

/// Totals `(received, transmitted)` of the interfaces in `counters`, in whatever order
/// they are listed.
pub open spec fn multiset_totals(counters: Multiset<NetworkCounters>) -> (u64, u64) {
    network_totals(choose|listing: Seq<NetworkCounters>| listing.to_multiset() == counters)
}

/// The totals of a list are those of its interfaces as a multiset.
pub proof fn lemma_totals_of_listing(counters: Seq<NetworkCounters>)
    ensures
        network_totals(counters) == multiset_totals(counters.to_multiset()),
{
    let listing = choose|listing: Seq<NetworkCounters>| listing.to_multiset() == counters.to_multiset();
    assert(counters.to_multiset() == counters.to_multiset());
    lemma_sums_permutation(counters, listing);
}

/// Throughput `(received, transmitted)`: each total minus what was recorded before (zero
/// if the total is below it).
pub open spec fn throughput_of(
    counters: Seq<NetworkCounters>,
    prev_received: u64,
    prev_transmitted: u64,
) -> (u64, u64) {
    (
        minus_or_zero(network_totals(counters).0, prev_received),
        minus_or_zero(network_totals(counters).1, prev_transmitted),
    )
}

/// Sums what all interfaces received and transmitted, holding each sum at the largest
/// `u64` if it would not fit.
pub fn sum_network_counters(counters: &Vec<NetworkCounters>) -> (totals: (u64, u64))
    ensures
        totals == network_totals(counters@),
{
    let mut received: u64 = 0;
    let mut transmitted: u64 = 0;
    let mut i: usize = 0;
    while i < counters.len()
        invariant
            i <= counters@.len(),
            received == saturated(received_sum(counters@.take(i as int))),
            transmitted == saturated(transmitted_sum(counters@.take(i as int))),
        decreases counters@.len() - i,
    {
        proof {
            let prefix = counters@.take(i as int);
            assert(counters@.take(i + 1).drop_last() =~= prefix);
            lemma_sums_nonnegative(prefix);
        }
        received = received.saturating_add(counters[i].received);
        transmitted = transmitted.saturating_add(counters[i].transmitted);
        i = i + 1;
    }
    assert(counters@.take(counters@.len() as int) =~= counters@);
    (received, transmitted)
}

/// Network throughput from the interfaces' counters and the totals recorded before.
pub fn throughput_from(
    counters: &Vec<NetworkCounters>,
    prev_received: u64,
    prev_transmitted: u64,
) -> (rates: (u64, u64))
    ensures
        rates == throughput_of(counters@, prev_received, prev_transmitted),
{
    let (received, transmitted) = sum_network_counters(counters);
    (received.saturating_sub(prev_received), transmitted.saturating_sub(prev_transmitted))
}

/// Throughput never exceeds the current totals, and against nothing recorded (as for a
/// fresh monitor, which records zero) it is the totals themselves.
pub proof fn lemma_throughput_bounded_by_totals(
    counters: Seq<NetworkCounters>,
    prev_received: u64,
    prev_transmitted: u64,
)
    ensures
        throughput_of(counters, prev_received, prev_transmitted).0 <= network_totals(counters).0,
        throughput_of(counters, prev_received, prev_transmitted).1 <= network_totals(counters).1,
        throughput_of(counters, 0, 0) == network_totals(counters),
{
}

/// Right after the monitor records its interfaces' totals (as `update_network_stats`
/// does), and before the figures change, it reports no traffic.
pub proof fn lemma_no_traffic_right_after_recording(monitor: SystemMonitor)
    requires
        (monitor.previous_received(), monitor.previous_transmitted())
            == monitor.network_totals_reported(),
    ensures
        monitor.expected_throughput() == (0u64, 0u64),
{
}

/// System monitor for collecting real-time statistics
pub struct SystemMonitor {
    /// sysinfo System instance
    system: sysinfo::System,
    /// Previous network stats for throughput calculation
    prev_received: u64,
    prev_transmitted: u64,
    /// How many times the figures have been read anew from the machine (`refresh_all`)
    readings: Ghost<nat>,
}

impl SystemMonitor {
    /// Received bytes recorded for the next throughput calculation.
    pub closed spec fn previous_received(&self) -> u64 {
        self.prev_received
    }

    /// Transmitted bytes recorded for the next throughput calculation.
    pub closed spec fn previous_transmitted(&self) -> u64 {
        self.prev_transmitted
    }

    /// How many times the monitor has read its figures anew from the machine through
    /// `refresh_all`.
    pub closed spec fn readings(&self) -> nat {
        self.readings@
    }

    /// The `sysinfo` figures the monitor holds.
    pub closed spec fn figures(&self) -> sysinfo::System {
        self.system
    }

    /// `(used, total)` memory in the figures the monitor holds.
    pub open spec fn memory_figures(&self) -> (u64, u64) {
        (reported_used_memory(self.figures()), reported_total_memory(self.figures()))
    }

    /// The process table in the figures the monitor holds.
    pub open spec fn process_table(&self) -> Map<u32, (Seq<char>, u32, u64)> {
        reported_processes(self.figures())
    }

    /// `(used, total)` of the filesystem shown, from the disk list the monitor holds.
    pub open spec fn shown_disk_usage(&self) -> (u64, u64) {
        disk_usage_of(reported_disks(self.figures()))
    }

    /// Totals `(received, transmitted)` over the interfaces in the figures the monitor holds.
    pub open spec fn network_totals_reported(&self) -> (u64, u64) {
        multiset_totals(reported_network_counters(self.figures()))
    }

    /// The throughput the monitor reports: its interfaces' totals minus what it recorded.
    pub open spec fn expected_throughput(&self) -> (u64, u64) {
        (
            minus_or_zero(self.network_totals_reported().0, self.previous_received()),
            minus_or_zero(self.network_totals_reported().1, self.previous_transmitted()),
        )
    }

    /// Create a new system monitor instance
    pub fn new() -> (monitor: Self)
        ensures
            monitor.previous_received() == 0,
            monitor.previous_transmitted() == 0,
            monitor.readings() == 1,
    {
        let mut system = sys_new_all();
        sys_refresh_all(&mut system);
        SystemMonitor { system, prev_received: 0, prev_transmitted: 0, readings: Ghost(1) }
    }

    /// Refresh system statistics
    pub fn refresh(&mut self)
        ensures
            final(self).previous_received() == old(self).previous_received(),
            final(self).previous_transmitted() == old(self).previous_transmitted(),
            final(self).readings() == old(self).readings() + 1,
    {
        sys_refresh_all(&mut self.system);
        self.readings = Ghost(self.readings@ + 1);
    }

    /// The `sysinfo` figures the monitor reads from.
    pub fn system(&self) -> (system: &sysinfo::System)
        ensures
            *system == self.figures(),
    {
        &self.system
    }

    /// Get memory info as (used, total) in bytes
    pub fn memory_info(&self) -> (memory: (u64, u64))
        ensures
            memory == self.memory_figures(),
    {
        (sys_used_memory(&self.system), sys_total_memory(&self.system))
    }

    /// Get disk usage info as (used, total) in bytes
    /// Returns the root filesystem or the first mounted filesystem
    pub fn disk_usage(&self) -> (usage: (u64, u64))
        ensures
            usage == self.shown_disk_usage(),
            usage.0 <= usage.1,
    {
        let disks = sys_disks(&self.system);
        select_disk_usage(&disks)
    }

    /// Get network throughput as (received, transmitted) in bytes per second
    pub fn network_throughput(&self) -> (rates: (u64, u64))
        ensures
            rates == self.expected_throughput(),
    {
        let counters = sys_network_counters(&self.system);
        let rates = throughput_from(&counters, self.prev_received, self.prev_transmitted);
        proof {
            lemma_totals_of_listing(counters@);
        }
        rates
    }

    /// Update network stats for next throughput calculation
    fn update_network_stats(&mut self)
        ensures
            final(self).figures() == old(self).figures(),
            final(self).readings() == old(self).readings(),
            (final(self).previous_received(), final(self).previous_transmitted())
                == old(self).network_totals_reported(),
    {
        let counters = sys_network_counters(&self.system);
        let (received, transmitted) = sum_network_counters(&counters);
        proof {
            lemma_totals_of_listing(counters@);
        }
        self.prev_received = received;
        self.prev_transmitted = transmitted;
    }

    /// Get list of processes sorted by CPU usage
    ///
    /// Every process of the table comes once, highest CPU usage first (sorted whenever no
    /// usage is NaN).
    pub fn get_processes(&self) -> (processes: Vec<ProcessInfo>)
        ensures
            lists_processes(processes@, self.process_table()),
            cpu_usages_comparable(self.process_table()) ==> sorted_by(SortBy::Cpu, processes@),
    {
        let mut processes = sys_processes(&self.system);
        let ghost fetched = processes@;
        sort_process_list(&mut processes, SortBy::Cpu);
        proof {
            let p = choose|p: Seq<int>|
                rearranged(p, fetched, processes@) && #[trigger] stable(SortBy::Cpu, p, processes@);
            lemma_rearranged_listing(p, fetched, processes@, self.process_table());
            if cpu_usages_comparable(self.process_table()) {
                lemma_listing_comparable(fetched, self.process_table());
            }
        }
        processes
    }

    /// Get total number of processes
    pub fn process_count(&self) -> (count: usize)
        ensures
            count == self.process_table().len(),
    {
        sys_process_count(&self.system)
    }

    /// Get system uptime in seconds
    pub fn uptime(&self) -> u64 {
        sys_uptime(&self.system)
    }
}

impl Default for SystemMonitor {
    fn default() -> (monitor: Self)
        ensures
            monitor.previous_received() == 0,
            monitor.previous_transmitted() == 0,
            monitor.readings() == 1,
    {
        Self::new()
    }
}

} // verus!
