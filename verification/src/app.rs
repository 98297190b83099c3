//! Application state management: the system monitor, the process list in its sort order,
//! and the refresh request.
use vstd::prelude::*;
use crate::process::{
    comparator_total_on, rearranged, sort_process_list, sorted_by, stable, ProcessInfo, SortBy,
};
use crate::system::{cpu_usages_comparable, lemma_rearranged_listing, lists_processes, SystemMonitor};

verus! {

/// The process list together with the order it is kept in.
struct ProcessList {
    /// List of processes sorted by the current sort order
    processes: Vec<ProcessInfo>,
    /// Current sort order
    sort_by: SortBy,
}

impl ProcessList {
    /// No operation changes the sort order, which is CPU usage from the start.
    #[verifier::type_invariant]
    spec fn keeps_cpu_order(self) -> bool {
        self.sort_by == SortBy::Cpu
    }
}

/// Main application state
pub struct App {
    /// System monitor instance
    system_monitor: SystemMonitor,
    /// The processes, in the current sort order
    list: ProcessList,
    /// Whether to refresh immediately on next update
    refresh_immediately: bool,
}

/// `shown` lists the process table `table`: it is some listing `fetched` of the table,
/// rearranged stably into the order `by`, and sorted unless that order is CPU usage and a
/// usage is NaN.
pub open spec fn sorted_snapshot(
    by: SortBy,
    table: Map<u32, (Seq<char>, u32, u64)>,
    shown: Seq<ProcessInfo>,
) -> bool {
    exists|fetched: Seq<ProcessInfo>, p: Seq<int>|
        lists_processes(fetched, table) && #[trigger] rearranged(p, fetched, shown) && stable(
            by,
            p,
            shown,
        ) && (comparator_total_on(by, fetched) ==> sorted_by(by, shown))
}

/// `after` is a state that `update` or `refresh_immediately` can leave from `before`:
/// either the monitor has read the machine once more and the list shows that fresh process
/// table in the same order, or only a refresh was asked for.
pub open spec fn app_step(before: App, after: App) -> bool {
    ||| after.shows_process_table() && after.sort_order() == before.sort_order()
        && after.monitor().readings() == before.monitor().readings() + 1
    ||| after.refresh_requested() && after.monitor() == before.monitor() && after.process_list()
        == before.process_list() && after.sort_order() == before.sort_order()
}

/// The figures an application shows change only through a new reading of the machine: a
/// step that leaves the monitor different has read it once more, and the list then shows
/// the process table of that fresh reading.
pub proof fn lemma_changed_figures_are_fresh(before: App, after: App)
    requires
        app_step(before, after),
        after.monitor() != before.monitor(),
    ensures
        after.monitor().readings() == before.monitor().readings() + 1,
        after.shows_process_table(),
{
}

/// Whatever sequence of `update` and `refresh_immediately` calls follows `new`, the
/// application keeps the CPU order and its list shows the monitor's process table: each
/// process once (so as many as `process_count` gives), sorted by CPU usage unless a usage is
/// NaN.
pub proof fn lemma_every_state_shows_its_table(states: Seq<App>)
    requires
        states.len() > 0,
        states[0].sort_order() == SortBy::Cpu,
        states[0].shows_process_table(),
        forall|i: int| 0 < i < states.len() ==> #[trigger] app_step(states[i - 1], states[i]),
    ensures
        forall|i: int|
            0 <= i < states.len() ==> #[trigger] states[i].sort_order() == SortBy::Cpu
                && states[i].shows_process_table()
                && states[i].process_list().len() == states[i].monitor().process_table().len(),
    decreases states.len(),
{
    let last = states.len() - 1;
    if states.len() > 1 {
        let prefix = states.drop_last();
        assert forall|i: int| 0 < i < prefix.len() implies #[trigger] app_step(prefix[i - 1], prefix[i]) by {
            assert(app_step(states[i - 1], states[i]));
        }
        lemma_every_state_shows_its_table(prefix);
        assert(app_step(states[last - 1], states[last]));
        assert(prefix[last - 1] == states[last - 1]);
        assert(prefix[last - 1].sort_order() == SortBy::Cpu && prefix[last - 1].shows_process_table());
    }
    assert forall|i: int| 0 <= i < states.len() implies #[trigger] states[i].sort_order() == SortBy::Cpu
        && states[i].shows_process_table()
        && states[i].process_list().len() == states[i].monitor().process_table().len() by {
        if i < last {
            assert(states.drop_last()[i] == states[i]);
            assert(states.drop_last()[i].sort_order() == SortBy::Cpu);
        }
    }
}

impl App {
    /// The order in which the process list is kept.
    pub closed spec fn sort_order(&self) -> SortBy {
        self.list.sort_by
    }

    /// The process list as last fetched.
    pub closed spec fn process_list(&self) -> Seq<ProcessInfo> {
        self.list.processes@
    }

    /// Whether an immediate refresh was asked for.
    pub closed spec fn refresh_requested(&self) -> bool {
        self.refresh_immediately
    }

    /// The system monitor the application reads from.
    pub closed spec fn monitor(&self) -> SystemMonitor {
        self.system_monitor
    }

    /// The list shows the process table the monitor holds: every process once, sorted in
    /// the sort order whenever no CPU usage in the table is NaN.
    pub open spec fn shows_process_table(&self) -> bool {
        &&& lists_processes(self.process_list(), self.monitor().process_table())
        &&& cpu_usages_comparable(self.monitor().process_table()) ==> sorted_by(
            self.sort_order(),
            self.process_list(),
        )
    }

    /// Received bytes that the monitor recorded for its throughput calculation.
    pub closed spec fn recorded_received(&self) -> u64 {
        self.system_monitor.previous_received()
    }

    /// Transmitted bytes that the monitor recorded for its throughput calculation.
    pub closed spec fn recorded_transmitted(&self) -> u64 {
        self.system_monitor.previous_transmitted()
    }

    /// Create a new application instance
    pub fn new() -> (app: Self)
        ensures
            app.sort_order() == SortBy::Cpu,
            !app.refresh_requested(),
            app.recorded_received() == 0,
            app.recorded_transmitted() == 0,
            lists_processes(app.process_list(), app.monitor().process_table()),
            cpu_usages_comparable(app.monitor().process_table()) ==> sorted_by(
                SortBy::Cpu,
                app.process_list(),
            ),
            app.shows_process_table(),
            app.monitor().readings() == 1,
    {
        let monitor = SystemMonitor::new();
        let processes = monitor.get_processes();
        App {
            system_monitor: monitor,
            list: ProcessList { processes, sort_by: SortBy::Cpu },
            refresh_immediately: false,
        }
    }

    /// Update application state (called on each tick)
    pub fn update(&mut self)
        ensures
            final(self).sort_order() == old(self).sort_order(),
            final(self).refresh_requested() == old(self).refresh_requested(),
            final(self).recorded_received() == old(self).recorded_received(),
            final(self).recorded_transmitted() == old(self).recorded_transmitted(),
            final(self).monitor().readings() == old(self).monitor().readings() + 1,
            sorted_snapshot(
                final(self).sort_order(),
                final(self).monitor().process_table(),
                final(self).process_list(),
            ),
            lists_processes(final(self).process_list(), final(self).monitor().process_table()),
            final(self).sort_order() != SortBy::Cpu || cpu_usages_comparable(
                final(self).monitor().process_table(),
            ) ==> sorted_by(final(self).sort_order(), final(self).process_list()),
            final(self).shows_process_table(),
            app_step(*old(self), *final(self)),
    {
        proof {
            use_type_invariant(&self.list);
        }
        // Refresh system statistics
        self.system_monitor.refresh();
        // Get updated process list
        self.list.processes = self.system_monitor.get_processes();
        let ghost fetched = self.list.processes@;
        let ghost table = self.system_monitor.process_table();
        // Sort processes according to current sort order
        self.sort_processes();
        proof {
            let p = choose|p: Seq<int>|
                rearranged(p, fetched, self.list.processes@) && #[trigger] stable(
                    self.list.sort_by,
                    p,
                    self.list.processes@,
                );
            assert(rearranged(p, fetched, self.list.processes@));
            if self.list.sort_by == SortBy::Cpu && cpu_usages_comparable(table) {
                crate::system::lemma_listing_comparable(fetched, table);
            }
            assert(lists_processes(fetched, table));
            lemma_rearranged_listing(p, fetched, self.list.processes@, table);
        }
    }

    /// Trigger immediate refresh on next update
    pub fn refresh_immediately(&mut self)
        ensures
            final(self).refresh_requested(),
            final(self).sort_order() == old(self).sort_order(),
            final(self).process_list() == old(self).process_list(),
            final(self).monitor() == old(self).monitor(),
            final(self).recorded_received() == old(self).recorded_received(),
            final(self).recorded_transmitted() == old(self).recorded_transmitted(),
            final(self).shows_process_table() == old(self).shows_process_table(),
            app_step(*old(self), *final(self)),
    {
        self.refresh_immediately = true;
    }

    /// Sort the process list according to the current sort order
    fn sort_processes(&mut self)
        ensures
            final(self).list.sort_by == old(self).list.sort_by,
            final(self).refresh_immediately == old(self).refresh_immediately,
            final(self).system_monitor == old(self).system_monitor,
            exists|p: Seq<int>|
                rearranged(p, old(self).list.processes@, final(self).list.processes@)
                    && #[trigger] stable(final(self).list.sort_by, p, final(self).list.processes@),
            comparator_total_on(old(self).list.sort_by, old(self).list.processes@) ==> sorted_by(
                old(self).list.sort_by,
                final(self).list.processes@,
            ),
    {
        proof {
            use_type_invariant(&self.list);
        }
        let by = self.list.sort_by;
        let mut processes: Vec<ProcessInfo> = Vec::new();
        std::mem::swap(&mut processes, &mut self.list.processes);
        let ghost before = processes@;
        sort_process_list(&mut processes, by);
        let ghost p = choose|p: Seq<int>|
            rearranged(p, before, processes@) && #[trigger] stable(by, p, processes@);
        self.list.processes = processes;
        assert(rearranged(p, before, self.list.processes@) && stable(
            self.list.sort_by,
            p,
            self.list.processes@,
        ));
    }

    // Getters for UI rendering

    /// The system monitor behind the figures shown.
    pub fn system_monitor(&self) -> (monitor: &SystemMonitor)
        ensures
            *monitor == self.monitor(),
    {
        &self.system_monitor
    }

    /// Get memory info (used, total) in bytes
    pub fn memory_info(&self) -> (memory: (u64, u64))
        ensures
            memory == self.monitor().memory_figures(),
    {
        self.system_monitor.memory_info()
    }

    /// Get disk usage info (used, total) in bytes
    pub fn disk_usage(&self) -> (usage: (u64, u64))
        ensures
            usage == self.monitor().shown_disk_usage(),
            usage.0 <= usage.1,
    {
        self.system_monitor.disk_usage()
    }

    /// Get network throughput (received, transmitted) in bytes
    pub fn network_throughput(&self) -> (rates: (u64, u64))
        ensures
            rates == self.monitor().expected_throughput(),
    {
        self.system_monitor.network_throughput()
    }

    /// Get the process list
    pub fn processes(&self) -> (list: &[ProcessInfo])
        ensures
            list@ == self.process_list(),
    {
        self.list.processes.as_slice()
    }

    /// Get the current sort order
    ///
    /// It is always CPU usage: no operation of the application changes it.
    pub fn sort_by(&self) -> (by: SortBy)
        ensures
            by == self.sort_order(),
            by == SortBy::Cpu,
    {
        proof {
            use_type_invariant(&self.list);
        }
        self.list.sort_by
    }

    /// Get total number of processes
    pub fn process_count(&self) -> (count: usize)
        ensures
            count == self.monitor().process_table().len(),
    {
        self.system_monitor.process_count()
    }

    /// Get system uptime in seconds
    pub fn uptime(&self) -> u64 {
        self.system_monitor.uptime()
    }
}

impl Default for App {
    fn default() -> (app: Self)
        ensures
            app.sort_order() == SortBy::Cpu,
            !app.refresh_requested(),
            app.recorded_received() == 0,
            app.recorded_transmitted() == 0,
            lists_processes(app.process_list(), app.monitor().process_table()),
            cpu_usages_comparable(app.monitor().process_table()) ==> sorted_by(
                SortBy::Cpu,
                app.process_list(),
            ),
            app.shows_process_table(),
            app.monitor().readings() == 1,
    {
        Self::new()
    }
}

} // verus!
