//! Counters of the service and the report on the machine.

use crate::models::container::ContainerStatus;
use crate::sys::now_millis;
use crate::text::{decimal, equal, push_decimal};
use vstd::prelude::*;
use vstd::string::*;

verus! {

/// Counts what the service has done since it started. The start is a
/// point in time in milliseconds since the Unix epoch.
#[derive(Debug)]
pub struct MetricsCollector {
    pub http_requests_total: u64,
    pub http_errors_total: u64,
    pub start_time: i64,
}

/// The counter after one more event; it starts over behind its largest
/// value.
pub open spec fn counted(n: u64) -> u64 {
    if n == u64::MAX {
        0
    } else {
        (n + 1) as u64
    }
}

/// The whole seconds from `start` to `now`, none where `now` is earlier.
pub open spec fn seconds_between(start: i64, now: i64) -> u64 {
    if now >= start {
        ((now - start) / 1000) as u64
    } else {
        0
    }
}

impl MetricsCollector {
    /// A collector that started at `start` and has counted nothing.
    pub fn started_at(start: i64) -> (collector: MetricsCollector)
        ensures
            collector.http_requests_total == 0,
            collector.http_errors_total == 0,
            collector.start_time == start,
    {
        MetricsCollector { http_requests_total: 0, http_errors_total: 0, start_time: start }
    }

    /// A collector that starts now and has counted nothing.
    pub fn new() -> (collector: MetricsCollector)
        ensures
            collector.http_requests_total == 0,
            collector.http_errors_total == 0,
    {
        MetricsCollector::started_at(now_millis())
    }

    /// Counts one request.
    pub fn record_request(&mut self)
        ensures
            final(self).http_requests_total == counted(old(self).http_requests_total),
            final(self).http_errors_total == old(self).http_errors_total,
            final(self).start_time == old(self).start_time,
    {
        self.http_requests_total = if self.http_requests_total == u64::MAX {
            0
        } else {
            self.http_requests_total + 1
        };
    }

    /// Counts one error.
    pub fn record_error(&mut self)
        ensures
            final(self).http_errors_total == counted(old(self).http_errors_total),
            final(self).http_requests_total == old(self).http_requests_total,
            final(self).start_time == old(self).start_time,
    {
        self.http_errors_total = if self.http_errors_total == u64::MAX {
            0
        } else {
            self.http_errors_total + 1
        };
    }

    /// The whole seconds the service has been up at `now`.
    pub fn uptime_seconds_at(&self, now: i64) -> (seconds: u64)
        ensures
            seconds == seconds_between(self.start_time, now),
    {
        if now >= self.start_time {
            ((now as i128 - self.start_time as i128) / 1000) as u64
        } else {
            0
        }
    }

    /// The whole seconds the service has been up now.
    pub fn get_uptime_seconds(&self) -> (seconds: u64)
        ensures
            exists|now: i64| seconds == #[trigger] seconds_between(self.start_time, now),
    {
        let now = now_millis();
        let seconds = self.uptime_seconds_at(now);
        assert(seconds == seconds_between(self.start_time, now));
        seconds
    }
}

/// Whether the checks of the system are to be left out: the setting is one
/// of `1`, `true`, `True`, `TRUE`.
pub open spec fn skips_checks(setting: Option<Seq<char>>) -> bool {
    match setting {
        Some(v) => v == "1"@ || v == "true"@ || v == "True"@ || v == "TRUE"@,
        None => false,
    }
}

/// Whether the checks of the system are to be left out.
pub fn skip_system_checks(setting: Option<&str>) -> (skip: bool)
    ensures
        skip == skips_checks(
            match setting {
                Some(v) => Some(v@),
                None => None,
            },
        ),
{
    match setting {
        Some(v) => equal(v, "1") || equal(v, "true") || equal(v, "True") || equal(v, "TRUE"),
        None => false,
    }
}

/// How many containers there are, and how many of them run, are stopped,
/// or are in error.
#[derive(Debug, Clone, Copy, PartialEq, Eq, Structural)]
pub struct ContainerCounts {
    pub total: u64,
    pub running: u64,
    pub stopped: u64,
    pub error: u64,
}

/// How many of `statuses` are `wanted`. An unknown status counts as an
/// error where `unknown_is_error` says so.
pub open spec fn count_of(
    statuses: Seq<Option<ContainerStatus>>,
    wanted: ContainerStatus,
    unknown_is_error: bool,
) -> nat
    decreases statuses.len(),
{
    if statuses.len() == 0 {
        0
    } else {
        count_of(statuses.drop_last(), wanted, unknown_is_error) + if is_counted(
            statuses.last(),
            wanted,
            unknown_is_error,
        ) {
            1nat
        } else {
            0nat
        }
    }
}

/// Whether one status counts as `wanted`.
pub open spec fn is_counted(status: Option<ContainerStatus>, wanted: ContainerStatus, unknown_is_error: bool) -> bool {
    match status {
        Some(s) => s == wanted,
        None => unknown_is_error && wanted == ContainerStatus::Error,
    }
}

/// Counts the containers by status. `None` stands for a container whose
/// status could not be had.
pub fn count_statuses(statuses: &Vec<Option<ContainerStatus>>, unknown_is_error: bool) -> (counts:
    ContainerCounts)
    requires
        statuses@.len() <= u64::MAX,
    ensures
        counts.total == statuses@.len(),
        counts.running == count_of(statuses@, ContainerStatus::Running, unknown_is_error),
        counts.stopped == count_of(statuses@, ContainerStatus::Stopped, unknown_is_error),
        counts.error == count_of(statuses@, ContainerStatus::Error, unknown_is_error),
{
    let mut running: u64 = 0;
    let mut stopped: u64 = 0;
    let mut error: u64 = 0;
    let mut i: usize = 0;
    while i < statuses.len()
        invariant
            i <= statuses.len(),
            statuses@.len() <= u64::MAX,
            running == count_of(statuses@.take(i as int), ContainerStatus::Running, unknown_is_error),
            stopped == count_of(statuses@.take(i as int), ContainerStatus::Stopped, unknown_is_error),
            error == count_of(statuses@.take(i as int), ContainerStatus::Error, unknown_is_error),
            running <= i,
            stopped <= i,
            error <= i,
        decreases statuses.len() - i,
    {
        proof {
            assert(statuses@.take(i + 1).drop_last() =~= statuses@.take(i as int));
            assert(statuses@.take(i + 1).last() == statuses@[i as int]);
        }
        match statuses[i] {
            Some(ContainerStatus::Running) => {
                running = running + 1;
            },
            Some(ContainerStatus::Stopped) => {
                stopped = stopped + 1;
            },
            Some(ContainerStatus::Error) => {
                error = error + 1;
            },
            Some(_) => {},
            None => {
                if unknown_is_error {
                    error = error + 1;
                }
            },
        }
        i = i + 1;
    }
    assert(statuses@.take(i as int) =~= statuses@);
    ContainerCounts { total: statuses.len() as u64, running, stopped, error }
}

/// The three lines that report one metric.
pub open spec fn metric_text(name: Seq<char>, help: Seq<char>, kind: Seq<char>, value: Seq<char>) -> Seq<
    char,
> {
    "# HELP "@ + name + " "@ + help + "\n"@ + "# TYPE "@ + name + " "@ + kind + "\n"@ + name + " "@ + value
        + "\n"@
}

/// Appends the three lines that report one metric.
pub fn add_metric(output: &mut String, name: &str, help: &str, metric_type: &str, value: &str)
    ensures
        final(output)@ == old(output)@ + metric_text(name@, help@, metric_type@, value@),
{
    let ghost before = output@;
    output.append("# HELP ");
    output.append(name);
    output.append(" ");
    output.append(help);
    output.append("\n");
    output.append("# TYPE ");
    output.append(name);
    output.append(" ");
    output.append(metric_type);
    output.append("\n");
    output.append(name);
    output.append(" ");
    output.append(value);
    output.append("\n");
    assert(output@ =~= before + metric_text(name@, help@, metric_type@, value@));
}

/// Appends the three lines that report a metric whose value is a whole
/// number.
pub fn add_number(output: &mut String, name: &str, help: &str, metric_type: &str, value: u64)
    ensures
        final(output)@ == old(output)@ + metric_text(name@, help@, metric_type@, decimal(value as nat)),
{
    let mut digits = String::new();
    push_decimal(&mut digits, value);
    assert(digits@ =~= decimal(value as nat));
    add_metric(output, name, help, metric_type, digits.as_str());
}

/// The load of the machine over the last one, five and fifteen minutes,
/// each written as text.
#[derive(Debug)]
pub struct LoadText {
    pub one: String,
    pub five: String,
    pub fifteen: String,
}

/// The memory of the machine, in kilobytes.
#[derive(Debug, Clone, Copy, PartialEq, Eq, Structural)]
pub struct MemoryUse {
    pub total: u64,
    pub free: u64,
    pub avail: u64,
}

/// The disk space of the machine, in kilobytes.
#[derive(Debug, Clone, Copy, PartialEq, Eq, Structural)]
pub struct DiskUse {
    pub total: u64,
    pub free: u64,
}

/// What can be told of the machine and of what runs on it. A part that
/// could not be had is missing.
#[derive(Debug)]
pub struct SystemReport {
    pub load: Option<LoadText>,
    pub memory: Option<MemoryUse>,
    pub disk: Option<DiskUse>,
    pub cpu_count: u64,
    pub containers: Option<ContainerCounts>,
    pub bridges: Option<u64>,
}

/// What is in use of `total` when `free` of it is not; nothing when more
/// is said to be free than there is.
pub fn used_of(total: u64, free: u64) -> (used: u64)
    ensures
        used == if total >= free {
            total - free
        } else {
            0
        },
{
    if total >= free {
        total - free
    } else {
        0
    }
}

pub open spec fn service_text(requests: u64, errors: u64, uptime: u64) -> Seq<char> {
    metric_text(
        "arm_hypervisor_http_requests_total"@,
        "Total HTTP requests received"@,
        "counter"@,
        decimal(requests as nat),
    ) + metric_text(
        "arm_hypervisor_http_errors_total"@,
        "Total HTTP errors"@,
        "counter"@,
        decimal(errors as nat),
    ) + metric_text(
        "arm_hypervisor_uptime_seconds"@,
        "Server uptime in seconds"@,
        "gauge"@,
        decimal(uptime as nat),
    )
}

pub open spec fn load_text(load: Option<LoadText>) -> Seq<char> {
    match load {
        Some(l) => metric_text(
            "arm_hypervisor_system_load_1min"@,
            "System load average (1 minute)"@,
            "gauge"@,
            l.one@,
        ) + metric_text(
            "arm_hypervisor_system_load_5min"@,
            "System load average (5 minutes)"@,
            "gauge"@,
            l.five@,
        ) + metric_text(
            "arm_hypervisor_system_load_15min"@,
            "System load average (15 minutes)"@,
            "gauge"@,
            l.fifteen@,
        ),
        None => Seq::empty(),
    }
}

pub open spec fn memory_text(memory: Option<MemoryUse>) -> Seq<char> {
    match memory {
        Some(m) => metric_text(
            "arm_hypervisor_memory_total_kb"@,
            "Total system memory in KB"@,
            "gauge"@,
            decimal(m.total as nat),
        ) + metric_text(
            "arm_hypervisor_memory_free_kb"@,
            "Free system memory in KB"@,
            "gauge"@,
            decimal(m.free as nat),
        ) + metric_text(
            "arm_hypervisor_memory_available_kb"@,
            "Available system memory in KB"@,
            "gauge"@,
            decimal(m.avail as nat),
        ),
        None => Seq::empty(),
    }
}

pub open spec fn disk_text(disk: Option<DiskUse>) -> Seq<char> {
    match disk {
        Some(d) => metric_text(
            "arm_hypervisor_disk_total_kb"@,
            "Total disk space in KB"@,
            "gauge"@,
            decimal(d.total as nat),
        ) + metric_text(
            "arm_hypervisor_disk_free_kb"@,
            "Free disk space in KB"@,
            "gauge"@,
            decimal(d.free as nat),
        ),
        None => Seq::empty(),
    }
}

pub open spec fn cpu_text(cpu_count: u64) -> Seq<char> {
    metric_text("arm_hypervisor_cpu_count"@, "Number of CPU cores"@, "gauge"@, decimal(cpu_count as nat))
}

pub open spec fn containers_text(containers: Option<ContainerCounts>) -> Seq<char> {
    match containers {
        Some(c) => metric_text(
            "arm_hypervisor_containers_total"@,
            "Total number of containers"@,
            "gauge"@,
            decimal(c.total as nat),
        ) + metric_text(
            "arm_hypervisor_containers_running"@,
            "Number of running containers"@,
            "gauge"@,
            decimal(c.running as nat),
        ) + metric_text(
            "arm_hypervisor_containers_stopped"@,
            "Number of stopped containers"@,
            "gauge"@,
            decimal(c.stopped as nat),
        ) + metric_text(
            "arm_hypervisor_containers_error"@,
            "Number of containers in error state"@,
            "gauge"@,
            decimal(c.error as nat),
        ),
        None => Seq::empty(),
    }
}

pub open spec fn bridges_text(bridges: Option<u64>) -> Seq<char> {
    match bridges {
        Some(n) => metric_text(
            "arm_hypervisor_bridges_total"@,
            "Total number of network bridges"@,
            "gauge"@,
            decimal(n as nat),
        ),
        None => Seq::empty(),
    }
}

/// The report in the text format that Prometheus reads: the counters of
/// the service, then what is known of the machine, the containers and the
/// bridges, each metric in three lines.
pub open spec fn prometheus_text(requests: u64, errors: u64, uptime: u64, system: SystemReport) -> Seq<char> {
    service_text(requests, errors, uptime) + load_text(system.load) + memory_text(system.memory) + disk_text(
        system.disk,
    ) + cpu_text(system.cpu_count) + containers_text(system.containers) + bridges_text(system.bridges)
}

/// Appends the counters of the service.
fn push_service(out: &mut String, requests: u64, errors: u64, uptime: u64)
    ensures
        final(out)@ == old(out)@ + service_text(requests, errors, uptime),
{
    let ghost before = out@;
    add_number(
        out,
        "arm_hypervisor_http_requests_total",
        "Total HTTP requests received",
        "counter",
        requests,
    );
    add_number(out, "arm_hypervisor_http_errors_total", "Total HTTP errors", "counter", errors);
    add_number(out, "arm_hypervisor_uptime_seconds", "Server uptime in seconds", "gauge", uptime);
    assert(out@ =~= before + service_text(requests, errors, uptime));
}

/// Appends the load of the machine, where it is known.
fn push_load(out: &mut String, load: &Option<LoadText>)
    ensures
        final(out)@ == old(out)@ + load_text(*load),
{
    let ghost before = out@;
    match load {
        Some(l) => {
            add_metric(
                out,
                "arm_hypervisor_system_load_1min",
                "System load average (1 minute)",
                "gauge",
                l.one.as_str(),
            );
            add_metric(
                out,
                "arm_hypervisor_system_load_5min",
                "System load average (5 minutes)",
                "gauge",
                l.five.as_str(),
            );
            add_metric(
                out,
                "arm_hypervisor_system_load_15min",
                "System load average (15 minutes)",
                "gauge",
                l.fifteen.as_str(),
            );
        },
        None => {},
    }
    assert(out@ =~= before + load_text(*load));
}

/// Appends the memory of the machine, where it is known.
fn push_memory(out: &mut String, memory: &Option<MemoryUse>)
    ensures
        final(out)@ == old(out)@ + memory_text(*memory),
{
    let ghost before = out@;
    match memory {
        Some(m) => {
            add_number(out, "arm_hypervisor_memory_total_kb", "Total system memory in KB", "gauge", m.total);
            add_number(out, "arm_hypervisor_memory_free_kb", "Free system memory in KB", "gauge", m.free);
            add_number(
                out,
                "arm_hypervisor_memory_available_kb",
                "Available system memory in KB",
                "gauge",
                m.avail,
            );
        },
        None => {},
    }
    assert(out@ =~= before + memory_text(*memory));
}

/// Appends the disk space of the machine, where it is known.
fn push_disk(out: &mut String, disk: &Option<DiskUse>)
    ensures
        final(out)@ == old(out)@ + disk_text(*disk),
{
    let ghost before = out@;
    match disk {
        Some(d) => {
            add_number(out, "arm_hypervisor_disk_total_kb", "Total disk space in KB", "gauge", d.total);
            add_number(out, "arm_hypervisor_disk_free_kb", "Free disk space in KB", "gauge", d.free);
        },
        None => {},
    }
    assert(out@ =~= before + disk_text(*disk));
}

/// Appends the counts of the containers, where they are known.
fn push_containers(out: &mut String, containers: &Option<ContainerCounts>)
    ensures
        final(out)@ == old(out)@ + containers_text(*containers),
{
    let ghost before = out@;
    match containers {
        Some(n) => {
            add_number(out, "arm_hypervisor_containers_total", "Total number of containers", "gauge", n.total);
            add_number(
                out,
                "arm_hypervisor_containers_running",
                "Number of running containers",
                "gauge",
                n.running,
            );
            add_number(
                out,
                "arm_hypervisor_containers_stopped",
                "Number of stopped containers",
                "gauge",
                n.stopped,
            );
            add_number(
                out,
                "arm_hypervisor_containers_error",
                "Number of containers in error state",
                "gauge",
                n.error,
            );
        },
        None => {},
    }
    assert(out@ =~= before + containers_text(*containers));
}

/// Appends the number of bridges, where it is known.
fn push_bridges(out: &mut String, bridges: &Option<u64>)
    ensures
        final(out)@ == old(out)@ + bridges_text(*bridges),
{
    let ghost before = out@;
    match bridges {
        Some(n) => {
            add_number(out, "arm_hypervisor_bridges_total", "Total number of network bridges", "gauge", *n);
        },
        None => {},
    }
    assert(out@ =~= before + bridges_text(*bridges));
}

/// Writes the report in the text format that Prometheus reads.
pub fn render_prometheus(collector: &MetricsCollector, uptime: u64, system: &SystemReport) -> (out: String)
    ensures
        out@ == prometheus_text(collector.http_requests_total, collector.http_errors_total, uptime, *system),
{
    let mut out = String::new();
    push_service(&mut out, collector.http_requests_total, collector.http_errors_total, uptime);
    assert(out@ =~= service_text(collector.http_requests_total, collector.http_errors_total, uptime));
    push_load(&mut out, &system.load);
    push_memory(&mut out, &system.memory);
    push_disk(&mut out, &system.disk);
    let ghost before = out@;
    add_number(&mut out, "arm_hypervisor_cpu_count", "Number of CPU cores", "gauge", system.cpu_count);
    assert(out@ == before + cpu_text(system.cpu_count));
    push_containers(&mut out, &system.containers);
    push_bridges(&mut out, &system.bridges);
    out
}

/// Whether the service as a whole is healthy: every part is.
pub fn overall_health(container_manager: bool, network_manager: bool) -> (healthy: bool)
    ensures
        healthy == (container_manager && network_manager),
{
    container_manager && network_manager
}

/// What the health check reports: whether the service as a whole is well,
/// then whether the container manager is, then whether the network manager
/// is. Where the checks of the system are skipped, all three count as well,
/// whatever the two managers answered; otherwise each manager is as well as
/// it answered, and the whole is well where both are.
pub fn health_report(skip: bool, container_ok: bool, network_ok: bool) -> (report: (bool, bool, bool))
    ensures
        report.0 == (skip || (container_ok && network_ok)),
        report.1 == (skip || container_ok),
        report.2 == (skip || network_ok),
{
    let container_manager = skip || container_ok;
    let network_manager = skip || network_ok;
    (overall_health(container_manager, network_manager), container_manager, network_manager)
}

/// The status of the answer to a health or readiness check: 200 where all
/// is well, 503 where it is not.
pub fn health_status(healthy: bool) -> (status: u16)
    ensures
        status == if healthy {
            200u16
        } else {
            503u16
        },
{
    if healthy {
        200
    } else {
        503
    }
}

} // verus!
